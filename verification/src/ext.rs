//! The trusted boundary of the library: declarations of the outside types
//! the recorder works through, names for what the outside calls return, and
//! one thin wrapper per outside function. Everything else in the crate is
//! verified against the contracts stated here.

use vstd::prelude::*;
use crate::textutil::spec_chars_le;
use crate::value::{StructuredValue, ValueModel};

verus! {

// ---------------------------------------------------------------------------
// Structured-text parsing (serde_json5 / serde_json)
// ---------------------------------------------------------------------------

#[verifier::external_type_specification]
#[verifier::external_body]
pub struct ExValue(serde_json::Value);

/// The character sequence a byte sequence decodes to when it is valid UTF-8.
pub uninterp spec fn spec_utf8_decode(b: Seq<u8>) -> Option<Seq<char>>;

/// The value a structured-text document parses to, when it parses at all.
pub uninterp spec fn spec_parsed_text(s: Seq<char>) -> Option<ValueModel>;

/// Relies on `String::from_utf8`: it succeeds exactly when the bytes are
/// valid UTF-8, and then decodes them; decoding is a function of the bytes
/// alone.
#[verifier::external_body]
pub fn utf8_to_string(b: &[u8]) -> (r: Option<String>)
    ensures
        r matches Some(s) ==> spec_utf8_decode(b@) == Some(s@),
        (r is None) == (spec_utf8_decode(b@) is None),
{
    String::from_utf8(b.to_vec()).ok()
}

/// Relies on `serde_json5::from_str::<serde_json::Value>`: parsing is a
/// function of the text alone, succeeds exactly on well-formed documents,
/// and yields a value tree that `convert_value` maps one-to-one onto the
/// library's value type (object keys arrive sorted and deduplicated, since
/// `serde_json::Map` keeps its entries in an ordered map).
#[verifier::external_body]
pub fn parse_structured_text(s: &str) -> (r: Option<StructuredValue>)
    ensures
        r matches Some(v) ==> spec_parsed_text(s@) == Some(v@),
        (r is None) == (spec_parsed_text(s@) is None),
{
    match serde_json5::from_str::<serde_json::Value>(s) {
        Ok(v) => Some(convert_value(&v)),
        Err(_) => None,
    }
}

/// Conversion arm of [`parse_structured_text`]: maps each variant of
/// `serde_json::Value` onto the library's value type, distinguishing
/// numbers the way `serde_json::Number::as_i64` / `as_u64` do.
#[verifier::external_body]
fn convert_value(v: &serde_json::Value) -> StructuredValue {
    match v {
        serde_json::Value::Null => StructuredValue::Null,
        serde_json::Value::Bool(b) => StructuredValue::Bool(*b),
        serde_json::Value::Number(n) => match (n.as_i64(), n.as_u64()) {
            (Some(i), _) => StructuredValue::Int(i),
            (None, Some(u)) => StructuredValue::BigInt(u),
            (None, None) => StructuredValue::NonIntegral,
        },
        serde_json::Value::String(s) => StructuredValue::Text(s.clone()),
        serde_json::Value::Array(a) => StructuredValue::Array(a.iter().map(convert_value).collect()),
        serde_json::Value::Object(m) => StructuredValue::Object(
            m.iter().map(|(k, inner)| (k.clone(), convert_value(inner))).collect(),
        ),
    }
}

// ---------------------------------------------------------------------------
// Timestamp-derived file names (chrono)
// ---------------------------------------------------------------------------

/// The `%Y%m%d_%H%M%S` rendering of a wall-clock time in seconds since the
/// epoch: a function of the seconds alone.
pub uninterp spec fn spec_utc_compact(secs: u64) -> Seq<char>;

/// Relies on `chrono::DateTime::<Utc>::from_timestamp` and its formatting:
/// the rendering depends on the timestamp alone, and every second value a
/// 64-bit nanosecond clock can reach (up to the year 2554) is far inside
/// chrono's calendar range, so formatting succeeds. Over that range the
/// rendering is fifteen characters — zero-padded digit fields around one
/// underscore, most significant field first — so a later second never
/// renders lexicographically smaller.
#[verifier::external_body]
pub fn format_compact_utc(secs: u64) -> (r: String)
    requires
        secs <= 18_446_744_073,
    ensures
        r@ == spec_utc_compact(secs),
        r@.len() == 15,
        r@[8] == '_',
        forall|i: int| 0 <= i < 15 && i != 8 ==> '0' as u32 <= (#[trigger] r@[i]) as u32 <= '9' as u32,
        forall|b: u64|
            secs <= b <= 18_446_744_073 ==> spec_chars_le(r@, #[trigger] spec_utc_compact(b))
                && spec_utc_compact(b).len() == r@.len(),
{
    match chrono::DateTime::<chrono::Utc>::from_timestamp(secs as i64, 0) {
        Some(dt) => format!("{}", dt.format("%Y%m%d_%H%M%S")),
        None => String::new(),
    }
}

// ---------------------------------------------------------------------------
// Control-topic matching (regex)
// ---------------------------------------------------------------------------

#[verifier::external_type_specification]
#[verifier::external_body]
pub struct ExRegex(regex::Regex);

/// The pattern a compiled expression was built from (`Regex::as_str`).
pub uninterp spec fn spec_regex_pattern(re: regex::Regex) -> Seq<char>;

/// Whether the regex engine accepts a pattern: a function of the pattern
/// alone.
pub uninterp spec fn spec_regex_valid(pat: Seq<char>) -> bool;

/// Whether a pattern matches somewhere in a text: a function of the two
/// strings alone.
pub uninterp spec fn spec_regex_match(pat: Seq<char>, text: Seq<char>) -> bool;

/// Relies on `regex::Regex::new`: it succeeds exactly on the patterns the
/// engine accepts (a function of the pattern alone), and on success the
/// compiled expression is the compiled form of exactly the given pattern.
#[verifier::external_body]
pub fn compile_pattern(p: &str) -> (r: Option<regex::Regex>)
    ensures
        (r is Some) == spec_regex_valid(p@),
        r matches Some(re) ==> spec_regex_pattern(re) == p@,
{
    regex::Regex::new(p).ok()
}

/// Relies on `regex::Regex::is_match`: matching is a function of the
/// compiled pattern and the text alone.
#[verifier::external_body]
pub fn pattern_matches(re: &regex::Regex, text: &str) -> (r: bool)
    ensures
        r == spec_regex_match(spec_regex_pattern(*re), text@),
{
    re.is_match(text)
}

// ---------------------------------------------------------------------------
// The binary container (mcap), written into an in-memory buffer. Over the
// in-memory sink the underlying byte writes cannot fail, so the error paths
// of these calls reject their input before anything is recorded.
// ---------------------------------------------------------------------------

/// Holds the container writer of the outside crate. Verus refuses the
/// declaration of the writer's type (its bounds name traits Verus does not
/// know), so the whole struct is opaque and every access goes through the
/// trusted wrappers below.
#[verifier::external_body]
pub struct RawWriter {
    inner: mcap::Writer<std::io::Cursor<Vec<u8>>>,
}

/// One logical entry of an open container, in the order it was added.
pub enum LogEntry {
    Schema { id: u16, name: Seq<char>, encoding: Seq<char>, data: Seq<u8> },
    Channel { id: u16, schema_id: u16, topic: Seq<char>, message_encoding: Seq<char> },
    Message { channel_id: u16, sequence: u32, log_time: u64, publish_time: u64, payload: Seq<u8> },
}

/// The logical contents of a container writer: the schema, channel and
/// message records added to it so far, in order.
pub uninterp spec fn spec_writer_log(w: RawWriter) -> Seq<LogEntry>;

/// Whether a container writer still accepts records, i.e. has not been
/// finished.
pub uninterp spec fn spec_writer_open(w: RawWriter) -> bool;

/// Whether entry `i` of the log is a schema record with identifier `id`.
pub open spec fn log_schema_id_at(log: Seq<LogEntry>, i: int, id: u16) -> bool {
    match log[i] {
        LogEntry::Schema { id: sid, .. } => sid == id,
        _ => false,
    }
}

/// Whether some schema record of the log carries identifier `id`.
pub open spec fn log_has_schema_id(log: Seq<LogEntry>, id: u16) -> bool {
    exists|i: int| 0 <= i < log.len() && #[trigger] log_schema_id_at(log, i, id)
}

/// Whether entry `i` of the log is a channel record with identifier `id`.
pub open spec fn log_channel_id_at(log: Seq<LogEntry>, i: int, id: u16) -> bool {
    match log[i] {
        LogEntry::Channel { id: cid, .. } => cid == id,
        _ => false,
    }
}

/// Whether some channel record of the log carries identifier `id`.
pub open spec fn log_has_channel_id(log: Seq<LogEntry>, id: u16) -> bool {
    exists|i: int| 0 <= i < log.len() && #[trigger] log_channel_id_at(log, i, id)
}

/// Whether the log contains exactly this schema record.
pub open spec fn log_has_schema_entry(
    log: Seq<LogEntry>,
    id: u16,
    name: Seq<char>,
    encoding: Seq<char>,
    data: Seq<u8>,
) -> bool {
    exists|i: int|
        0 <= i < log.len() && #[trigger] log[i] == (LogEntry::Schema { id, name, encoding, data })
}

/// Whether the log contains exactly this channel record.
pub open spec fn log_has_channel_entry(
    log: Seq<LogEntry>,
    id: u16,
    schema_id: u16,
    topic: Seq<char>,
    message_encoding: Seq<char>,
) -> bool {
    exists|i: int|
        0 <= i < log.len() && #[trigger] log[i] == (LogEntry::Channel {
            id,
            schema_id,
            topic,
            message_encoding,
        })
}

/// How many schema records the log holds.
pub open spec fn schema_entry_count(log: Seq<LogEntry>) -> nat
    decreases log.len(),
{
    if log.len() == 0 {
        0
    } else {
        schema_entry_count(log.drop_last()) + (if log.last() is Schema {
            1nat
        } else {
            0nat
        })
    }
}

/// How many channel records the log holds.
pub open spec fn channel_entry_count(log: Seq<LogEntry>) -> nat
    decreases log.len(),
{
    if log.len() == 0 {
        0
    } else {
        channel_entry_count(log.drop_last()) + (if log.last() is Channel {
            1nat
        } else {
            0nat
        })
    }
}

/// Relies on `mcap::Writer::new` over an in-memory cursor, with records
/// written unchunked: creation only writes the leading magic and header
/// into the buffer, which cannot fail, so a writer always comes back,
/// holding no records and accepting writes.
#[verifier::external_body]
pub fn new_writer() -> (r: Option<RawWriter>)
    ensures
        r is Some,
        r matches Some(w) ==> spec_writer_log(w) == Seq::<LogEntry>::empty() && spec_writer_open(
            w,
        ),
{
    let options = mcap::WriteOptions::default().use_chunks(false);
    match mcap::Writer::with_options(std::io::Cursor::new(Vec::new()), options) {
        Ok(inner) => Some(RawWriter { inner }),
        Err(_) => None,
    }
}

/// Relies on `mcap::Writer::add_schema`: while fewer schema records exist
/// than the identifier allocator can still serve, the call succeeds — the
/// unchunked writes into the in-memory buffer cannot fail — and either
/// appends one schema record under a previously unused identifier, or
/// returns the identifier of an already-present record with identical
/// content. (The allocator hands out consecutive identifiers from 1 and
/// must not step past the last one, hence the bound.)
#[verifier::external_body]
pub fn writer_add_schema(
    w: &mut RawWriter,
    name: &str,
    encoding: &str,
    data: &[u8],
) -> (r: Option<u16>)
    requires
        spec_writer_open(*old(w)),
        schema_entry_count(spec_writer_log(*old(w))) < 65534,
    ensures
        spec_writer_open(*final(w)),
        r is Some,
        r matches Some(id) ==> (spec_writer_log(*final(w)) == spec_writer_log(*old(w)).push(
            (LogEntry::Schema { id, name: name@, encoding: encoding@, data: data@ }),
        ) && !log_has_schema_id(spec_writer_log(*old(w)), id)) || (spec_writer_log(*final(w))
            == spec_writer_log(*old(w)) && log_has_schema_entry(
            spec_writer_log(*old(w)),
            id,
            name@,
            encoding@,
            data@,
        )),
{
    w.inner.add_schema(name, encoding, data).ok()
}

/// Relies on `mcap::Writer::add_channel` with an empty metadata map: for a
/// registered schema identifier, and while fewer channel records exist
/// than the identifier allocator can still serve, the call succeeds — the
/// unchunked writes into the in-memory buffer cannot fail — and either
/// appends one channel record under a previously unused identifier, or
/// returns the identifier of an already-present record with identical
/// content.
#[verifier::external_body]
pub fn writer_add_channel(
    w: &mut RawWriter,
    schema_id: u16,
    topic: &str,
    message_encoding: &str,
) -> (r: Option<u16>)
    requires
        spec_writer_open(*old(w)),
        channel_entry_count(spec_writer_log(*old(w))) < 65534,
        log_has_schema_id(spec_writer_log(*old(w)), schema_id),
    ensures
        spec_writer_open(*final(w)),
        r is Some,
        r matches Some(id) ==> (spec_writer_log(*final(w)) == spec_writer_log(*old(w)).push(
            (LogEntry::Channel { id, schema_id, topic: topic@, message_encoding: message_encoding@ }),
        ) && !log_has_channel_id(spec_writer_log(*old(w)), id)) || (spec_writer_log(*final(w))
            == spec_writer_log(*old(w)) && log_has_channel_entry(
            spec_writer_log(*old(w)),
            id,
            schema_id,
            topic@,
            message_encoding@,
        )),
{
    w.inner.add_channel(schema_id, topic, message_encoding, &std::collections::BTreeMap::new()).ok()
}

/// Relies on `mcap::Writer::write_to_known_channel`: it succeeds exactly
/// for a registered channel identifier — the unchunked writes into the
/// in-memory buffer cannot fail — and then appends exactly one message
/// record, carrying the given header fields and the payload bytes
/// verbatim; otherwise nothing is recorded.
#[verifier::external_body]
pub fn writer_write_message(
    w: &mut RawWriter,
    channel_id: u16,
    sequence: u32,
    log_time: u64,
    publish_time: u64,
    payload: &[u8],
) -> (r: bool)
    requires
        spec_writer_open(*old(w)),
    ensures
        spec_writer_open(*final(w)),
        r == log_has_channel_id(spec_writer_log(*old(w)), channel_id),
        r ==> spec_writer_log(
            *final(w),
        ) == spec_writer_log(*old(w)).push(
            (LogEntry::Message { channel_id, sequence, log_time, publish_time, payload: payload@ }),
        ),
        !r ==> spec_writer_log(*final(w)) == spec_writer_log(*old(w)),
{
    w.inner.write_to_known_channel(
        &mcap::records::MessageHeader { channel_id, sequence, log_time, publish_time },
        payload,
    ).is_ok()
}

/// Relies on `mcap::Writer::flush`: it moves buffered bytes along without
/// adding or dropping records, and over the in-memory buffer it cannot
/// fail.
#[verifier::external_body]
pub fn writer_flush(w: &mut RawWriter) -> (r: bool)
    requires
        spec_writer_open(*old(w)),
    ensures
        spec_writer_open(*final(w)),
        spec_writer_log(*final(w)) == spec_writer_log(*old(w)),
        r,
{
    w.inner.flush().is_ok()
}

/// Relies on `mcap::Writer::finish` and `mcap::Writer::into_inner`: writes
/// the closing summary section — plain writes and seeks into the in-memory
/// buffer, which cannot fail — and hands back the container's bytes.
#[verifier::external_body]
pub fn writer_finish(w: RawWriter) -> (r: Option<Vec<u8>>)
    ensures
        r is Some,
{
    let mut inner = w.inner;
    match inner.finish() {
        Ok(_) => Some(inner.into_inner().into_inner()),
        Err(_) => None,
    }
}

} // verus!
