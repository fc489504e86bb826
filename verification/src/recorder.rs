//! The recording controller and the ingestion step. The controller watches
//! a designated control topic and derives the recording state from its
//! payload's safety bit; arming opens a fresh, timestamp-named container,
//! disarming finalizes it. Every other part of ingestion — channel
//! resolution, schema synthesis, record append, periodic flush — runs only
//! while a container is open.

use vstd::prelude::*;
use vstd::utf8::encode_utf8;
use core::mem::swap;
use crate::container::{AppendResult, Container, chan_in_catalog, spec_topic_channel};
use crate::encoding::{
    EncodingClass, classify_encoding, encoding_secondary, schema_file_path, spec_classify,
    spec_schema_file_path, spec_secondary,
};
use crate::ext::{
    LogEntry, compile_pattern, log_has_channel_entry, log_has_schema_entry, format_compact_utc,
    parse_structured_text, pattern_matches, spec_parsed_text, spec_regex_match, spec_regex_pattern,
    spec_regex_valid, spec_utc_compact, spec_utf8_decode, utf8_to_string,
};
use crate::schema::{create_schema, spec_schema_text};
use crate::textutil::{
    lemma_chars_le_append, lemma_chars_le_prefix, lemma_chars_le_refl, replace_char,
    spec_chars_le, spec_replace_char,
};
use crate::value::{ValueModel, spec_armed_bit};

verus! {

/// The structured value a raw payload decodes and parses to, if any.
pub open spec fn spec_payload_value(payload: Seq<u8>) -> Option<ValueModel> {
    match spec_utf8_decode(payload) {
        None => None,
        Some(s) => spec_parsed_text(s),
    }
}

/// The safety-armed bit carried by a control payload, if any.
pub open spec fn spec_control_bit(payload: Seq<u8>) -> Option<bool> {
    match spec_payload_value(payload) {
        None => None,
        Some(v) => spec_armed_bit(v),
    }
}

/// The timestamp-derived container file name.
pub open spec fn spec_filename(now_nanos: u64) -> Seq<char> {
    "recorder_"@ + spec_utc_compact((now_nanos / 1_000_000_000) as u64) + ".mcap"@
}

/// The full path of a container opened under `dir` at time `now_nanos`.
pub open spec fn spec_session_path(dir: Seq<char>, now_nanos: u64) -> Seq<char> {
    dir + "/"@ + spec_filename(now_nanos)
}

/// Generates the file name for a container opened now: the wall-clock time
/// in a fixed format, so that the name of a container opened at any later
/// time never sorts lexicographically below this one.
pub fn generate_filename(now_nanos: u64) -> (r: String)
    ensures
        r@ == spec_filename(now_nanos),
        forall|later: u64|
            now_nanos <= later ==> spec_chars_le(r@, #[trigger] spec_filename(later)),
{
    let secs: u64 = now_nanos / 1_000_000_000;
    proof {
        assert(secs <= 18_446_744_073) by (nonlinear_arith)
            requires
                secs == now_nanos / 1_000_000_000,
                now_nanos <= u64::MAX,
        ;
    }
    let ts = format_compact_utc(secs);
    let mut name = String::new();
    name.append("recorder_");
    name.append(ts.as_str());
    name.append(".mcap");
    proof {
        assert(name@ =~= spec_filename(now_nanos));
        assert forall|later: u64| now_nanos <= later implies spec_chars_le(
            name@,
            #[trigger] spec_filename(later),
        ) by {
            let lsecs = (later / 1_000_000_000) as u64;
            assert(secs <= lsecs && lsecs <= 18_446_744_073) by (nonlinear_arith)
                requires
                    secs == now_nanos / 1_000_000_000,
                    lsecs == later / 1_000_000_000,
                    now_nanos <= later,
                    later <= u64::MAX,
            ;
            assert(spec_chars_le(ts@, spec_utc_compact(lsecs)) && spec_utc_compact(lsecs).len()
                == ts@.len());
            lemma_chars_le_refl(".mcap"@);
            lemma_chars_le_append(ts@, spec_utc_compact(lsecs), ".mcap"@, ".mcap"@);
            lemma_chars_le_prefix("recorder_"@, ts@ + ".mcap"@, spec_utc_compact(lsecs) + ".mcap"@);
            assert(name@ =~= "recorder_"@ + (ts@ + ".mcap"@));
            assert(spec_filename(later) =~= "recorder_"@ + (spec_utc_compact(lsecs) + ".mcap"@));
        }
    }
    name
}

/// What the resolution step decides for a topic that has no channel yet,
/// before the container writer is consulted.
pub enum SchemaPlan {
    /// The encoding is neither recognized binary-record nor structured text.
    UnknownEnc,
    /// The schema token of a binary-record encoding has no package part.
    BadToken,
    /// An external schema definition is needed; its path is given.
    NeedFile { path: Seq<char> },
    /// The caller reported the external schema definition unreadable.
    LoadFailed,
    /// The structured-text payload is not valid UTF-8.
    Undecodable,
    /// The payload text does not parse as a structured value.
    Unparsable,
    /// The parsed value's top level is not an object.
    NotObject,
    /// A schema can be registered, with this name, language, description
    /// bytes and message encoding.
    Registration { name: Seq<char>, lang: Seq<char>, data: Seq<u8>, msg_enc: Seq<char> },
}

/// The view of the externally loaded schema argument.
pub open spec fn spec_ext_view(e: Option<Result<String, String>>) -> Option<
    Result<Seq<char>, Seq<char>>,
> {
    match e {
        None => None,
        Some(Ok(s)) => Some(Ok(s@)),
        Some(Err(s)) => Some(Err(s@)),
    }
}

/// The resolution decision for one unregistered topic: classify the
/// encoding descriptor; binary records resolve their dotted token to an
/// external definition file (whose text becomes the description), and
/// structured text infers the description from the payload itself. The
/// registered name is the descriptor's schema token when it carries one,
/// otherwise the canonicalized topic.
pub open spec fn spec_schema_plan(
    topic: Seq<char>,
    enc: Seq<char>,
    payload: Seq<u8>,
    root: Seq<char>,
    ext: Option<Result<Seq<char>, Seq<char>>>,
) -> SchemaPlan {
    match spec_classify(enc) {
        EncodingClass::Unknown => SchemaPlan::UnknownEnc,
        EncodingClass::BinaryRecord { .. } => {
            let token = spec_secondary(enc)->0;
            match spec_schema_file_path(root, token) {
                None => SchemaPlan::BadToken,
                Some(p) => match ext {
                    None => SchemaPlan::NeedFile { path: p },
                    Some(Err(_)) => SchemaPlan::LoadFailed,
                    Some(Ok(text)) => SchemaPlan::Registration {
                        name: token,
                        lang: "ros2msg"@,
                        data: encode_utf8(text),
                        msg_enc: "cdr"@,
                    },
                },
            }
        },
        EncodingClass::StructuredText => match spec_utf8_decode(payload) {
            None => SchemaPlan::Undecodable,
            Some(s) => match spec_parsed_text(s) {
                None => SchemaPlan::Unparsable,
                Some(v) => if !(v is Object) {
                    SchemaPlan::NotObject
                } else {
                    SchemaPlan::Registration {
                        name: match spec_secondary(enc) {
                            Some(t) => t,
                            None => spec_replace_char(topic, '/', '.'),
                        },
                        lang: "jsonschema"@,
                        data: encode_utf8(spec_schema_text(v)),
                        msg_enc: "json"@,
                    }
                },
            },
        },
    }
}

/// A finalized container: where its bytes belong, and the bytes themselves.
pub struct FinalizedContainer {
    pub path: String,
    pub bytes: Vec<u8>,
}

/// What the recording controller did with one message.
pub struct ControlReport {
    /// The path of the newly opened container, on a disarmed-to-armed
    /// transition.
    pub opened: Option<String>,
    /// The finalized container, on an armed-to-disarmed transition.
    pub finalized: Option<FinalizedContainer>,
}

/// What became of one message's payload.
pub enum MessageOutcome {
    /// The payload was appended under this channel and sequence number.
    Recorded { channel_id: u16, sequence: u32 },
    /// Recording is off; the message never reached the catalog.
    NotRecording,
    /// An external schema definition is needed first; read the file at
    /// this path and call again with its contents.
    NeedsSchemaFile { path: String },
    /// Dropped: unrecognized encoding descriptor.
    DroppedUnknownEncoding,
    /// Dropped: binary-record schema token has no package part.
    DroppedBadToken,
    /// Dropped: the external schema definition could not be read.
    DroppedSchemaLoadFailed,
    /// Dropped: structured-text payload is not valid UTF-8.
    DroppedUndecodable,
    /// Dropped: payload text does not parse as a structured value.
    DroppedUnparsable,
    /// Dropped: the parsed value's top level is not an object.
    DroppedNotObject,
    /// Dropped: the container's schema/channel identifier capacity is used
    /// up, so no further topic can be registered.
    DroppedRegistrationFailed,
    /// Dropped: the channel's sequence counter is exhausted.
    DroppedSequenceExhausted,
}

/// Everything one ingestion step did.
pub struct IngestReport {
    pub opened: Option<String>,
    pub finalized: Option<FinalizedContainer>,
    pub outcome: MessageOutcome,
    pub flushed: bool,
}

/// The wall-clock interval between durability flushes, in nanoseconds.
pub const FLUSH_INTERVAL_NANOS: u64 = 30_000_000_000;

/// The recorder: the compiled control-topic pattern, the configured
/// directories, the recording state (a container while armed), and the
/// last flush time.
pub struct Recorder {
    control_re: regex::Regex,
    out_dir: String,
    schema_root: String,
    container: Option<Container>,
    last_flush_nanos: u64,
}

impl Recorder {
    /// Whether recording is on: a container is open.
    pub closed spec fn is_armed(self) -> bool {
        self.container is Some
    }

    /// The open container, while armed.
    pub closed spec fn spec_container(self) -> Option<Container> {
        self.container
    }

    /// The pattern the control topic is matched against.
    pub closed spec fn control_pattern(self) -> Seq<char> {
        spec_regex_pattern(self.control_re)
    }

    /// The configured recording directory.
    pub closed spec fn spec_out_dir(self) -> Seq<char> {
        self.out_dir@
    }

    /// The configured external schema root.
    pub closed spec fn spec_schema_root(self) -> Seq<char> {
        self.schema_root@
    }

    /// When the recorder last flushed.
    pub closed spec fn spec_last_flush(self) -> u64 {
        self.last_flush_nanos
    }

    /// The recorder's invariant: an open container is internally
    /// consistent.
    pub open spec fn inv(self) -> bool {
        match self.spec_container() {
            Some(c) => c.inv(),
            None => true,
        }
    }

    /// Whether this topic is the control topic.
    pub open spec fn spec_is_control(self, topic: Seq<char>) -> bool {
        spec_regex_match(self.control_pattern(), topic)
    }

    /// The recording state after seeing this message: a control payload
    /// with a readable safety bit sets the state to that bit; everything
    /// else leaves it alone.
    pub open spec fn spec_next_armed(self, topic: Seq<char>, payload: Seq<u8>) -> bool {
        if self.spec_is_control(topic) {
            match spec_control_bit(payload) {
                Some(b) => b,
                None => self.is_armed(),
            }
        } else {
            self.is_armed()
        }
    }

    /// Whether this message demands opening a container.
    pub open spec fn wants_open(self, topic: Seq<char>, payload: Seq<u8>) -> bool {
        !self.is_armed() && self.spec_next_armed(topic, payload)
    }

    /// Whether this message demands finalizing the container.
    pub open spec fn wants_close(self, topic: Seq<char>, payload: Seq<u8>) -> bool {
        self.is_armed() && !self.spec_next_armed(topic, payload)
    }

    /// Whether the configuration survived a step unchanged.
    pub open spec fn same_config(self, other: Recorder) -> bool {
        &&& self.control_pattern() == other.control_pattern()
        &&& self.spec_out_dir() == other.spec_out_dir()
        &&& self.spec_schema_root() == other.spec_schema_root()
    }

    /// Builds a disarmed recorder from the configuration surface: the
    /// control-topic pattern, the recording directory and the external
    /// schema root. It succeeds exactly when the pattern compiles.
    pub fn new(control_pattern: &str, out_dir: String, schema_root: String, now_nanos: u64) -> (r:
        Option<Recorder>)
        ensures
            (r is Some) == spec_regex_valid(control_pattern@),
            r matches Some(rec) ==> rec.inv() && !rec.is_armed() && rec.control_pattern()
                == control_pattern@ && rec.spec_out_dir() == out_dir@ && rec.spec_schema_root()
                == schema_root@ && rec.spec_last_flush() == now_nanos,
    {
        match compile_pattern(control_pattern) {
            Some(control_re) => Some(
                Recorder {
                    control_re,
                    out_dir,
                    schema_root,
                    container: None,
                    last_flush_nanos: now_nanos,
                },
            ),
            None => None,
        }
    }

    /// The recording controller: inspects one message, toggles the
    /// recording state when the message is a readable control payload, and
    /// opens or finalizes the container on the transition. Over the
    /// in-memory writer, opening cannot fail.
    pub fn apply_control(&mut self, topic: &str, payload: &[u8], now_nanos: u64) -> (r:
        ControlReport)
        requires
            old(self).inv(),
        ensures
            final(self).inv(),
            final(self).same_config(*old(self)),
            final(self).spec_last_flush() == old(self).spec_last_flush(),
            !old(self).wants_open(topic@, payload@) && !old(self).wants_close(topic@, payload@)
                ==> *final(self) == *old(self) && r.opened is None && r.finalized is None,
            old(self).wants_close(topic@, payload@) ==> !final(self).is_armed() && r.opened is None
                && (r.finalized matches Some(f) && f.path@ == old(self).spec_container()->0.spec_path()),
            old(self).wants_open(topic@, payload@) ==> r.finalized is None && final(self).is_armed()
                && (r.opened matches Some(p) && p@
                    == spec_session_path(old(self).spec_out_dir(), now_nanos)
                    && (final(self).spec_container() matches Some(c) && c.log()
                        == Seq::<LogEntry>::empty() && c.cat() == Seq::<
                        (Seq<char>, crate::container::Channel),
                    >::empty() && c.spec_path() == p@ && !c.at_capacity())),
    {
        if !pattern_matches(&self.control_re, topic) {
            return ControlReport { opened: None, finalized: None };
        }
        let bit: Option<bool> = match utf8_to_string(payload) {
            None => None,
            Some(s) => match parse_structured_text(s.as_str()) {
                None => None,
                Some(v) => v.armed_bit(),
            },
        };
        match bit {
            Some(true) => {
                if self.container.is_none() {
                    let filename = generate_filename(now_nanos);
                    let mut path = self.out_dir.clone();
                    path.append("/");
                    path.append(filename.as_str());
                    proof {
                        assert(path@ =~= spec_session_path(self.out_dir@, now_nanos));
                    }
                    let c = Container::open(path.clone());
                    self.container = Some(c);
                    ControlReport { opened: Some(path), finalized: None }
                } else {
                    ControlReport { opened: None, finalized: None }
                }
            },
            Some(false) => {
                let mut taken: Option<Container> = None;
                swap(&mut self.container, &mut taken);
                match taken {
                    Some(c) => {
                        let (path, bytes) = c.finalize();
                        ControlReport {
                            opened: None,
                            finalized: Some(FinalizedContainer { path, bytes }),
                        }
                    },
                    None => ControlReport { opened: None, finalized: None },
                }
            },
            None => ControlReport { opened: None, finalized: None },
        }
    }
}

/// How a registrable plan extends a log: the log grew by exactly the
/// channel record under `cid` — preceded by its schema record, carrying
/// exactly the planned name, language and description bytes, unless an
/// identical schema record already stood in the log — and both records
/// stand registered afterwards.
pub open spec fn plan_registered_from(
    log0: Seq<LogEntry>,
    log1: Seq<LogEntry>,
    plan: SchemaPlan,
    topic: Seq<char>,
    cid: u16,
) -> bool {
    match plan {
        SchemaPlan::Registration { name, lang, data, msg_enc } => exists|schema_id: u16|
            #[trigger] log_has_schema_entry(log1, schema_id, name, lang, data)
                && log_has_channel_entry(log1, cid, schema_id, topic, msg_enc) && (log1
                == log0.push(
                (LogEntry::Schema { id: schema_id, name, encoding: lang, data }),
            ).push(
                (LogEntry::Channel { id: cid, schema_id, topic, message_encoding: msg_enc }),
            ) || (log_has_schema_entry(log0, schema_id, name, lang, data) && log1 == log0.push(
                (LogEntry::Channel { id: cid, schema_id, topic, message_encoding: msg_enc }),
            ))),
        _ => false,
    }
}

/// What a resolution step must have produced, given its decision `plan`,
/// when the topic had no channel yet: each deterministic failure maps to
/// its drop outcome with the container untouched; a registrable plan is
/// refused exactly when the container's identifier capacity is used up,
/// and otherwise records the message at sequence 0 on the freshly
/// registered channel, the log grown by exactly the planned records.
pub open spec fn plan_outcome_ok(
    c0: Container,
    c1: Container,
    out: MessageOutcome,
    plan: SchemaPlan,
    topic: Seq<char>,
    now: u64,
    payload: Seq<u8>,
) -> bool {
    match plan {
        SchemaPlan::UnknownEnc => out is DroppedUnknownEncoding && c1 == c0,
        SchemaPlan::BadToken => out is DroppedBadToken && c1 == c0,
        SchemaPlan::NeedFile { path } => (out matches MessageOutcome::NeedsSchemaFile { path: p }
            && p@ == path) && c1 == c0,
        SchemaPlan::LoadFailed => out is DroppedSchemaLoadFailed && c1 == c0,
        SchemaPlan::Undecodable => out is DroppedUndecodable && c1 == c0,
        SchemaPlan::Unparsable => out is DroppedUnparsable && c1 == c0,
        SchemaPlan::NotObject => out is DroppedNotObject && c1 == c0,
        SchemaPlan::Registration { .. } => if c0.at_capacity() {
            out is DroppedRegistrationFailed && c1.cat() == c0.cat() && c1.log() == c0.log()
        } else {
            out matches MessageOutcome::Recorded { channel_id, sequence } && sequence == 0
                && c1.log().len() > 0 && plan_registered_from(
                c0.log(),
                c1.log().drop_last(),
                plan,
                topic,
                channel_id,
            ) && c1.log() == c1.log().drop_last().push(
                (LogEntry::Message {
                    channel_id,
                    sequence: 0u32,
                    log_time: now,
                    publish_time: now,
                    payload,
                }),
            )
        },
    }
}

/// What one message step over an open container guarantees: the container
/// survives under its path and its log only grows; a cached topic goes
/// straight to the append; an uncached one follows its resolution plan;
/// and an appended record carries this channel, the stamped times and the
/// payload bytes verbatim.
pub open spec fn message_step_ok(
    pre: Recorder,
    post: Recorder,
    out: MessageOutcome,
    topic: Seq<char>,
    payload: Seq<u8>,
    enc: Seq<char>,
    root: Seq<char>,
    ext: Option<Result<Seq<char>, Seq<char>>>,
    now: u64,
) -> bool {
    match (pre.spec_container(), post.spec_container()) {
        (Some(c0), Some(c1)) => {
            &&& c1.spec_path() == c0.spec_path()
            &&& c0.log().is_prefix_of(c1.log())
            &&& !(out is NotRecording)
            &&& (c0.has_topic(topic) ==> (spec_topic_channel(c0.cat(), topic) matches Some(ch)
                && (out is DroppedSequenceExhausted <==> ch.sequence == u32::MAX) && (ch.sequence
                < u32::MAX ==> (out matches MessageOutcome::Recorded { channel_id, sequence }
                && channel_id == ch.channel_id && sequence == ch.sequence))))
            &&& (!c0.has_topic(topic) ==> plan_outcome_ok(
                c0,
                c1,
                out,
                spec_schema_plan(topic, enc, payload, root, ext),
                topic,
                now,
                payload,
            ))
            &&& (out matches MessageOutcome::Recorded { channel_id, sequence } ==> c1.log().len()
                > 0 && c1.log().last() == (LogEntry::Message {
                channel_id,
                sequence,
                log_time: now,
                publish_time: now,
                payload,
            }) && chan_in_catalog(c1.cat(), channel_id, topic))
        },
        _ => false,
    }
}

/// Resolves the topic's channel in `c` — registering it first when the
/// topic is new — and appends the payload.
fn resolve_and_append(
    c: &mut Container,
    topic: &str,
    payload: &[u8],
    encoding: &str,
    ext_schema: Option<Result<String, String>>,
    schema_root: &str,
    now_nanos: u64,
) -> (r: MessageOutcome)
    requires
        old(c).inv(),
    ensures
        final(c).inv(),
        final(c).spec_path() == old(c).spec_path(),
        old(c).log().is_prefix_of(final(c).log()),
        !(r is NotRecording),
        old(c).has_topic(topic@) ==> (spec_topic_channel(old(c).cat(), topic@) matches Some(ch)
            && (r is DroppedSequenceExhausted <==> ch.sequence == u32::MAX) && (ch.sequence
            < u32::MAX ==> (r matches MessageOutcome::Recorded { channel_id, sequence }
            && channel_id == ch.channel_id && sequence == ch.sequence))),
        !old(c).has_topic(topic@) ==> plan_outcome_ok(
            *old(c),
            *final(c),
            r,
            spec_schema_plan(topic@, encoding@, payload@, schema_root@, spec_ext_view(ext_schema)),
            topic@,
            now_nanos,
            payload@,
        ),
        r matches MessageOutcome::Recorded { channel_id, sequence } ==> final(c).log().len() > 0
            && final(c).log().last() == (LogEntry::Message {
            channel_id,
            sequence,
            log_time: now_nanos,
            publish_time: now_nanos,
            payload: payload@,
        }) && chan_in_catalog(final(c).cat(), channel_id, topic@),
{
    let ghost c0 = *c;
    let j: usize = match c.channel_index(topic) {
        Some(j) => j,
        None => {
            match classify_encoding(encoding) {
                EncodingClass::Unknown => {
                    proof {
                        crate::container::lemma_prefix_refl(c.log());
                    }
                    return MessageOutcome::DroppedUnknownEncoding;
                },
                EncodingClass::BinaryRecord { schema_token } => {
                    match schema_file_path(schema_root, schema_token.as_str()) {
                        None => {
                            proof {
                                crate::container::lemma_prefix_refl(c.log());
                            }
                            return MessageOutcome::DroppedBadToken;
                        },
                        Some(p) => match ext_schema {
                            None => {
                                proof {
                                    crate::container::lemma_prefix_refl(c.log());
                                }
                                return MessageOutcome::NeedsSchemaFile { path: p };
                            },
                            Some(Err(_)) => {
                                proof {
                                    crate::container::lemma_prefix_refl(c.log());
                                }
                                return MessageOutcome::DroppedSchemaLoadFailed;
                            },
                            Some(Ok(text)) => {
                                match c.register(
                                    schema_token.as_str(),
                                    "ros2msg",
                                    text.as_str().as_bytes(),
                                    topic,
                                    "cdr",
                                ) {
                                    None => {
                                        return MessageOutcome::DroppedRegistrationFailed;
                                    },
                                    Some(reg_cid) => {
                                        proof {
                                            let plan = spec_schema_plan(
                                                topic@,
                                                encoding@,
                                                payload@,
                                                schema_root@,
                                                spec_ext_view(ext_schema),
                                            );
                                            assert(spec_classify(encoding@) is BinaryRecord);
                                            assert(spec_secondary(encoding@) == Some(
                                                schema_token@,
                                            ));
                                            assert(plan matches SchemaPlan::Registration {
                                                name,
                                                lang,
                                                data,
                                                msg_enc,
                                            } && name == schema_token@ && lang == "ros2msg"@
                                                && data == encode_utf8(text@) && msg_enc
                                                == "cdr"@);
                                            let sid = choose|schema_id: u16|
                                                log_has_channel_entry(
                                                    c.log(),
                                                    reg_cid,
                                                    schema_id,
                                                    topic@,
                                                    "cdr"@,
                                                ) && #[trigger] log_has_schema_entry(
                                                    c.log(),
                                                    schema_id,
                                                    schema_token@,
                                                    "ros2msg"@,
                                                    encode_utf8(text@),
                                                ) && (c.log() == c0.log().push(
                                                    (LogEntry::Schema {
                                                        id: schema_id,
                                                        name: schema_token@,
                                                        encoding: "ros2msg"@,
                                                        data: encode_utf8(text@),
                                                    }),
                                                ).push(
                                                    (LogEntry::Channel {
                                                        id: reg_cid,
                                                        schema_id,
                                                        topic: topic@,
                                                        message_encoding: "cdr"@,
                                                    }),
                                                ) || (log_has_schema_entry(
                                                    c0.log(),
                                                    schema_id,
                                                    schema_token@,
                                                    "ros2msg"@,
                                                    encode_utf8(text@),
                                                ) && c.log() == c0.log().push(
                                                    (LogEntry::Channel {
                                                        id: reg_cid,
                                                        schema_id,
                                                        topic: topic@,
                                                        message_encoding: "cdr"@,
                                                    }),
                                                )));
                                            assert(plan_registered_from(
                                                c0.log(),
                                                c.log(),
                                                plan,
                                                topic@,
                                                reg_cid,
                                            ));
                                        }
                                    },
                                }
                            },
                        },
                    }
                },
                EncodingClass::StructuredText => {
                    let s = match utf8_to_string(payload) {
                        None => {
                            proof {
                                crate::container::lemma_prefix_refl(c.log());
                            }
                            return MessageOutcome::DroppedUndecodable;
                        },
                        Some(s) => s,
                    };
                    let v = match parse_structured_text(s.as_str()) {
                        None => {
                            proof {
                                crate::container::lemma_prefix_refl(c.log());
                            }
                            return MessageOutcome::DroppedUnparsable;
                        },
                        Some(v) => v,
                    };
                    if !v.is_object() {
                        proof {
                            crate::container::lemma_prefix_refl(c.log());
                        }
                        return MessageOutcome::DroppedNotObject;
                    }
                    let schema_text = create_schema(&v);
                    let name = match encoding_secondary(encoding) {
                        Some(t) => t,
                        None => replace_char(topic, '/', '.'),
                    };
                    match c.register(
                        name.as_str(),
                        "jsonschema",
                        schema_text.as_str().as_bytes(),
                        topic,
                        "json",
                    ) {
                        None => {
                            return MessageOutcome::DroppedRegistrationFailed;
                        },
                        Some(reg_cid) => {
                            proof {
                                let plan = spec_schema_plan(
                                    topic@,
                                    encoding@,
                                    payload@,
                                    schema_root@,
                                    spec_ext_view(ext_schema),
                                );
                                assert(spec_classify(encoding@) is StructuredText);
                                assert(plan matches SchemaPlan::Registration {
                                    name: pn,
                                    lang,
                                    data,
                                    msg_enc,
                                } && pn == name@ && lang == "jsonschema"@ && data == encode_utf8(
                                    spec_schema_text(v@),
                                ) && msg_enc == "json"@);
                                let sid = choose|schema_id: u16|
                                    log_has_channel_entry(
                                        c.log(),
                                        reg_cid,
                                        schema_id,
                                        topic@,
                                        "json"@,
                                    ) && #[trigger] log_has_schema_entry(
                                        c.log(),
                                        schema_id,
                                        name@,
                                        "jsonschema"@,
                                        encode_utf8(spec_schema_text(v@)),
                                    ) && (c.log() == c0.log().push(
                                        (LogEntry::Schema {
                                            id: schema_id,
                                            name: name@,
                                            encoding: "jsonschema"@,
                                            data: encode_utf8(spec_schema_text(v@)),
                                        }),
                                    ).push(
                                        (LogEntry::Channel {
                                            id: reg_cid,
                                            schema_id,
                                            topic: topic@,
                                            message_encoding: "json"@,
                                        }),
                                    ) || (log_has_schema_entry(
                                        c0.log(),
                                        schema_id,
                                        name@,
                                        "jsonschema"@,
                                        encode_utf8(spec_schema_text(v@)),
                                    ) && c.log() == c0.log().push(
                                        (LogEntry::Channel {
                                            id: reg_cid,
                                            schema_id,
                                            topic: topic@,
                                            message_encoding: "json"@,
                                        }),
                                    )));
                                assert(plan_registered_from(
                                    c0.log(),
                                    c.log(),
                                    plan,
                                    topic@,
                                    reg_cid,
                                ));
                            }
                        },
                    }
                },
            }
            match c.channel_index(topic) {
                Some(j) => j,
                None => {
                    proof {
                        assert((c.cat()[c.cat().len() - 1]).0 == topic@);
                        assert(c.has_topic(topic@));
                        assert(false);
                    }
                    return MessageOutcome::DroppedRegistrationFailed;
                },
            }
        },
    };
    let ghost c_mid = *c;
    let ghost jj = j as int;
    proof {
        if !c0.has_topic(topic@) {
            // the freshly registered channel sits at the end, at sequence 0
            assert forall|k: int| 0 <= k < c0.cat().len() implies (#[trigger] c0.cat()[k]).0
                != topic@ by {}
            if jj < c0.cat().len() {
                assert(c_mid.cat()[jj] == c0.cat()[jj]);
                assert(false);
            }
            assert(c_mid.cat()[jj].1.sequence == 0);
        } else {
            // a cached topic appends on its own (unique) channel
            c0.lemma_topic_channel(jj);
        }
    }
    match c.append(j, now_nanos, now_nanos, payload) {
        AppendResult::Written { channel_id, sequence } => {
            proof {
                assert(final(c).log().last() == (LogEntry::Message {
                    channel_id,
                    sequence,
                    log_time: now_nanos,
                    publish_time: now_nanos,
                    payload: payload@,
                }));
                assert((c.cat()[jj]).1.channel_id == channel_id && c.cat()[jj].0 == topic@);
                assert(chan_in_catalog(c.cat(), channel_id, topic@));
                if !c0.has_topic(topic@) {
                    let plan = spec_schema_plan(
                        topic@,
                        encoding@,
                        payload@,
                        schema_root@,
                        spec_ext_view(ext_schema),
                    );
                    assert(channel_id == c_mid.cat()[jj].1.channel_id);
                    assert(plan_registered_from(c0.log(), c_mid.log(), plan, topic@, channel_id));
                    assert(c.log().drop_last() =~= c_mid.log());
                    assert(plan_registered_from(
                        c0.log(),
                        c.log().drop_last(),
                        plan,
                        topic@,
                        channel_id,
                    ));
                    assert(c.log() == c.log().drop_last().push(
                        (LogEntry::Message {
                            channel_id,
                            sequence: 0u32,
                            log_time: now_nanos,
                            publish_time: now_nanos,
                            payload: payload@,
                        }),
                    ));
                }
                crate::container::lemma_prefix_trans(c0.log(), c_mid.log(), c.log());
            }
            MessageOutcome::Recorded { channel_id, sequence }
        },
        AppendResult::SequenceExhausted => {
            proof {
                if !c0.has_topic(topic@) {
                    assert(false);
                }
                crate::container::lemma_prefix_trans(c0.log(), c_mid.log(), c.log());
            }
            MessageOutcome::DroppedSequenceExhausted
        },
    }
}

/// What one message step over a freshly opened (empty, within capacity)
/// container guarantees, stated without reference to the pre-state:
/// deterministic failures leave the container empty, and a registrable
/// plan records the message at sequence 0, the container holding exactly
/// one schema record, one channel record and one message record, all as
/// planned.
pub open spec fn fresh_plan_outcome(
    c1: Container,
    out: MessageOutcome,
    plan: SchemaPlan,
    topic: Seq<char>,
    now: u64,
    payload: Seq<u8>,
) -> bool {
    match plan {
        SchemaPlan::UnknownEnc => out is DroppedUnknownEncoding && c1.log()
            == Seq::<LogEntry>::empty(),
        SchemaPlan::BadToken => out is DroppedBadToken && c1.log() == Seq::<LogEntry>::empty(),
        SchemaPlan::NeedFile { path } => (out matches MessageOutcome::NeedsSchemaFile { path: p }
            && p@ == path) && c1.log() == Seq::<LogEntry>::empty(),
        SchemaPlan::LoadFailed => out is DroppedSchemaLoadFailed && c1.log()
            == Seq::<LogEntry>::empty(),
        SchemaPlan::Undecodable => out is DroppedUndecodable && c1.log()
            == Seq::<LogEntry>::empty(),
        SchemaPlan::Unparsable => out is DroppedUnparsable && c1.log() == Seq::<LogEntry>::empty(),
        SchemaPlan::NotObject => out is DroppedNotObject && c1.log() == Seq::<LogEntry>::empty(),
        SchemaPlan::Registration { name, lang, data, msg_enc } => out
            matches MessageOutcome::Recorded { channel_id, sequence } && sequence == 0 && (
        exists|schema_id: u16|
            #[trigger] log_has_schema_entry(c1.log(), schema_id, name, lang, data) && c1.log()
                == seq![
            (LogEntry::Schema { id: schema_id, name, encoding: lang, data }),
            (LogEntry::Channel { id: channel_id, schema_id, topic, message_encoding: msg_enc }),
            (LogEntry::Message {
                channel_id,
                sequence: 0u32,
                log_time: now,
                publish_time: now,
                payload,
            }),
        ]),
    }
}

/// A message step against an empty container within capacity follows its
/// plan exactly.
proof fn lemma_fresh_outcome(
    mid: Recorder,
    post: Recorder,
    out: MessageOutcome,
    topic: Seq<char>,
    payload: Seq<u8>,
    enc: Seq<char>,
    root: Seq<char>,
    ext: Option<Result<Seq<char>, Seq<char>>>,
    now: u64,
)
    requires
        mid.spec_container() matches Some(c0) && c0.log() == Seq::<LogEntry>::empty() && c0.cat()
            == Seq::<(Seq<char>, crate::container::Channel)>::empty() && !c0.at_capacity(),
        message_step_ok(mid, post, out, topic, payload, enc, root, ext, now),
    ensures
        post.spec_container() matches Some(c1) && fresh_plan_outcome(
            c1,
            out,
            spec_schema_plan(topic, enc, payload, root, ext),
            topic,
            now,
            payload,
        ),
{
    let c0 = mid.spec_container()->0;
    let c1 = post.spec_container()->0;
    assert(!c0.has_topic(topic));
    let plan = spec_schema_plan(topic, enc, payload, root, ext);
    match plan {
        SchemaPlan::Registration { name, lang, data, msg_enc } => {
            let channel_id = out->Recorded_channel_id;
            let sid = choose|schema_id: u16|
                #[trigger] log_has_schema_entry(c1.log().drop_last(), schema_id, name, lang, data)
                    && log_has_channel_entry(
                    c1.log().drop_last(),
                    channel_id,
                    schema_id,
                    topic,
                    msg_enc,
                ) && (c1.log().drop_last() == c0.log().push(
                    (LogEntry::Schema { id: schema_id, name, encoding: lang, data }),
                ).push(
                    (LogEntry::Channel { id: channel_id, schema_id, topic, message_encoding: msg_enc }),
                ) || (log_has_schema_entry(c0.log(), schema_id, name, lang, data) && c1.log().drop_last()
                    == c0.log().push(
                    (LogEntry::Channel { id: channel_id, schema_id, topic, message_encoding: msg_enc }),
                )));
            // an identical schema record cannot stand in the empty log
            if log_has_schema_entry(c0.log(), sid, name, lang, data) {
                let i = choose|i: int|
                    0 <= i < c0.log().len() && #[trigger] c0.log()[i] == (LogEntry::Schema {
                        id: sid,
                        name,
                        encoding: lang,
                        data,
                    });
                assert(false);
            }
            assert(c1.log() =~= seq![
                (LogEntry::Schema { id: sid, name, encoding: lang, data }),
                (LogEntry::Channel { id: channel_id, schema_id: sid, topic, message_encoding: msg_enc }),
                (LogEntry::Message {
                    channel_id,
                    sequence: 0u32,
                    log_time: now,
                    publish_time: now,
                    payload,
                }),
            ]);
            assert(log_has_schema_entry(c1.log(), sid, name, lang, data)) by {
                assert(c1.log()[0] == (LogEntry::Schema { id: sid, name, encoding: lang, data }));
            }
        },
        _ => {},
    }
}

/// A flush between the message step and the observation preserves the
/// step's guarantees for a recorded message.
proof fn lemma_message_step_flush(
    pre: Recorder,
    a: Recorder,
    b: Recorder,
    out: MessageOutcome,
    topic: Seq<char>,
    payload: Seq<u8>,
    enc: Seq<char>,
    root: Seq<char>,
    ext: Option<Result<Seq<char>, Seq<char>>>,
    now: u64,
)
    requires
        message_step_ok(pre, a, out, topic, payload, enc, root, ext, now),
        out is Recorded,
        a.spec_container() matches Some(ca),
        b.spec_container() matches Some(cb),
        b.spec_container()->0.log() == a.spec_container()->0.log(),
        b.spec_container()->0.cat() == a.spec_container()->0.cat(),
        b.spec_container()->0.spec_path() == a.spec_container()->0.spec_path(),
    ensures
        message_step_ok(pre, b, out, topic, payload, enc, root, ext, now),
{
    let c0 = pre.spec_container()->0;
    let ca = a.spec_container()->0;
    let cb = b.spec_container()->0;
    if !c0.has_topic(topic) {
        let plan = spec_schema_plan(topic, enc, payload, root, ext);
        assert(plan_outcome_ok(c0, ca, out, plan, topic, now, payload));
        match plan {
            SchemaPlan::Registration { name, lang, data, msg_enc } => {
                assert(!c0.at_capacity());
                let channel_id = out->Recorded_channel_id;
                assert(plan_registered_from(
                    c0.log(),
                    ca.log().drop_last(),
                    plan,
                    topic,
                    channel_id,
                ));
                assert(cb.log().drop_last() =~= ca.log().drop_last());
                assert(plan_registered_from(
                    c0.log(),
                    cb.log().drop_last(),
                    plan,
                    topic,
                    channel_id,
                ));
            },
            _ => {
                assert(false);
            },
        }
    }
}

impl Recorder {
    /// The channel catalog step: hands one message to the catalog and the
    /// container writer, unless recording is off — then the message never
    /// reaches either.
    pub fn record_message(
        &mut self,
        topic: &str,
        payload: &[u8],
        encoding: &str,
        ext_schema: Option<Result<String, String>>,
        now_nanos: u64,
    ) -> (r: MessageOutcome)
        requires
            old(self).inv(),
        ensures
            final(self).inv(),
            final(self).same_config(*old(self)),
            final(self).spec_last_flush() == old(self).spec_last_flush(),
            final(self).is_armed() == old(self).is_armed(),
            !old(self).is_armed() ==> *final(self) == *old(self) && r is NotRecording,
            old(self).is_armed() ==> message_step_ok(
                *old(self),
                *final(self),
                r,
                topic@,
                payload@,
                encoding@,
                old(self).spec_schema_root(),
                spec_ext_view(ext_schema),
                now_nanos,
            ),
    {
        match &mut self.container {
            None => MessageOutcome::NotRecording,
            Some(c) => resolve_and_append(
                c,
                topic,
                payload,
                encoding,
                ext_schema,
                self.schema_root.as_str(),
                now_nanos,
            ),
        }
    }

    /// One full ingestion step for one bus message: feed the recording
    /// controller, short-circuit while disarmed, resolve the channel and
    /// append the record, and flush once the flush interval has passed
    /// since the last flush.
    pub fn ingest(
        &mut self,
        topic: &str,
        payload: &[u8],
        encoding: &str,
        ext_schema: Option<Result<String, String>>,
        now_nanos: u64,
    ) -> (r: IngestReport)
        requires
            old(self).inv(),
        ensures
            final(self).inv(),
            final(self).same_config(*old(self)),
            !old(self).spec_is_control(topic@) && !old(self).is_armed() ==> *final(self)
                == *old(self) && r.opened is None && r.finalized is None && r.outcome is NotRecording
                && !r.flushed,
            !old(self).wants_open(topic@, payload@) && !old(self).wants_close(topic@, payload@)
                ==> r.opened is None && r.finalized is None && final(self).is_armed() == old(
                self,
            ).is_armed(),
            old(self).wants_close(topic@, payload@) ==> !final(self).is_armed() && r.opened is None
                && (r.finalized matches Some(f) && f.path@
                == old(self).spec_container()->0.spec_path()) && r.outcome is NotRecording
                && !r.flushed,
            old(self).wants_open(topic@, payload@) ==> r.finalized is None && final(self).is_armed()
                && (r.opened matches Some(p) && p@
                == spec_session_path(old(self).spec_out_dir(), now_nanos)
                && final(self).spec_container()->0.spec_path() == p@),
            !final(self).is_armed() ==> r.outcome is NotRecording,
            old(self).is_armed() && !old(self).wants_close(topic@, payload@) ==> message_step_ok(
                *old(self),
                *final(self),
                r.outcome,
                topic@,
                payload@,
                encoding@,
                old(self).spec_schema_root(),
                spec_ext_view(ext_schema),
                now_nanos,
            ),
            old(self).wants_open(topic@, payload@) ==> (final(self).spec_container()
                matches Some(c1) && fresh_plan_outcome(
                c1,
                r.outcome,
                spec_schema_plan(
                    topic@,
                    encoding@,
                    payload@,
                    old(self).spec_schema_root(),
                    spec_ext_view(ext_schema),
                ),
                topic@,
                now_nanos,
                payload@,
            )),
            r.outcome matches MessageOutcome::Recorded { channel_id, sequence }
                ==> final(self).is_armed() && (final(self).spec_container() matches Some(c1)
                && c1.log().len() > 0
                && c1.log().last() == (LogEntry::Message {
                channel_id,
                sequence,
                log_time: now_nanos,
                publish_time: now_nanos,
                payload: payload@,
            }) && chan_in_catalog(c1.cat(), channel_id, topic@)),
            r.flushed ==> r.outcome is Recorded && final(self).spec_last_flush() == now_nanos,
            !r.flushed ==> final(self).spec_last_flush() == old(self).spec_last_flush(),
            r.outcome is Recorded && now_nanos > old(self).spec_last_flush()
                + FLUSH_INTERVAL_NANOS ==> r.flushed,
    {
        let ctrl = self.apply_control(topic, payload, now_nanos);
        let ghost mid = *self;
        let outcome = self.record_message(topic, payload, encoding, ext_schema, now_nanos);
        let ghost post_rec = *self;
        let is_rec = match &outcome {
            MessageOutcome::Recorded { .. } => true,
            _ => false,
        };
        let mut flushed = false;
        if is_rec && now_nanos >= self.last_flush_nanos && now_nanos - self.last_flush_nanos
            > FLUSH_INTERVAL_NANOS {
            match &mut self.container {
                Some(c) => {
                    c.flush();
                    flushed = true;
                },
                None => {},
            }
            if flushed {
                self.last_flush_nanos = now_nanos;
            }
        }
        proof {
            if mid.is_armed() {
                if flushed {
                    lemma_message_step_flush(
                        mid,
                        post_rec,
                        *self,
                        outcome,
                        topic@,
                        payload@,
                        encoding@,
                        mid.spec_schema_root(),
                        spec_ext_view(ext_schema),
                        now_nanos,
                    );
                }
                assert(message_step_ok(
                    mid,
                    *self,
                    outcome,
                    topic@,
                    payload@,
                    encoding@,
                    mid.spec_schema_root(),
                    spec_ext_view(ext_schema),
                    now_nanos,
                ));
                if old(self).wants_open(topic@, payload@) {
                    lemma_fresh_outcome(
                        mid,
                        *self,
                        outcome,
                        topic@,
                        payload@,
                        encoding@,
                        mid.spec_schema_root(),
                        spec_ext_view(ext_schema),
                        now_nanos,
                    );
                }
            }
        }
        IngestReport { opened: ctrl.opened, finalized: ctrl.finalized, outcome, flushed }
    }

    /// Finalizes the current container, if one is open: the guaranteed
    /// cleanup on every exit path from a recording session.
    pub fn shutdown(&mut self) -> (r: Option<FinalizedContainer>)
        requires
            old(self).inv(),
        ensures
            final(self).inv(),
            !final(self).is_armed(),
            final(self).same_config(*old(self)),
            (r is Some) == old(self).is_armed(),
            r matches Some(f) ==> f.path@ == old(self).spec_container()->0.spec_path(),
    {
        let mut taken: Option<Container> = None;
        swap(&mut self.container, &mut taken);
        match taken {
            Some(c) => {
                let (path, bytes) = c.finalize();
                Some(FinalizedContainer { path, bytes })
            },
            None => None,
        }
    }
}

} // verus!
