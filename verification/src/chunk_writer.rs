//! The chunk buffer and its flush protocol.
//!
//! The writer owns the in-memory chunk and the codec configuration.
//! Persistence itself belongs to the caller: a flush is prepared as
//! the exact path and bytes of one create-only file
//! ([`EventChunkWriter::prepare_flush`]), the caller attempts the
//! write, and [`EventChunkWriter::finish_flush`] either clears the
//! chunk (the file was created and fully written) or keeps every
//! event, in order, for the next attempt.

use vstd::prelude::*;
use vstd::string::StringExecFns;
use crate::codec::{serialize_events, spec_serialize, KeyLogFormat};
use crate::compress::{compress_data, spec_compress, KeyLogCompressionMethod};
use crate::errors::KeyLogError;
use crate::key_events::KeyLogEvent;

verus! {

/// Default bound on the number of events in one chunk.
pub const DEFAULT_MAX_CHUNK_SIZE: usize = 1024 * 10;

/// Latest flush time the timestamp formatter is promised to accept:
/// 9999-12-31T23:59:59 UTC, in seconds since the Unix epoch.
pub const MAX_FORMATTED_SECS: i64 = 253402300799;

/// The `YYYY-MM-DDTHH:MM:SS` text of the moment `secs` seconds after
/// the Unix epoch, in UTC: a function of the seconds value alone.
pub uninterp spec fn spec_utc_text(secs: int) -> Seq<char>;

/// Relies on chrono: `DateTime::<Utc>::from_timestamp` is `Some` for
/// every second count whose date falls in chrono's year range (which
/// spans the years 1 through 9999 and far beyond), and formatting that
/// UTC moment with `"%Y-%m-%dT%H:%M:%S"` uses no locale and no time
/// zone lookup, so the text is a function of `secs` alone.
#[verifier::external_body]
fn format_utc_seconds(secs: i64) -> (r: Option<String>)
    ensures
        r matches Some(s) ==> s@ == spec_utc_text(secs as int),
        0 <= secs <= MAX_FORMATTED_SECS ==> r is Some,
{
    chrono::DateTime::<chrono::Utc>::from_timestamp(secs, 0).map(
        |dt| dt.format("%Y-%m-%dT%H:%M:%S").to_string(),
    )
}

/// The name of the chunk file for a flush at `secs`.
pub open spec fn spec_chunk_filename(secs: int) -> Seq<char> {
    spec_utc_text(secs) + ".log"@
}

/// The full path of the chunk file for a flush at `secs` under `dir`.
pub open spec fn spec_chunk_path(dir: Seq<char>, secs: int) -> Seq<char> {
    dir + "/"@ + spec_chunk_filename(secs)
}

/// Whether a chunk of `len` events has reached the bound `max`.
pub open spec fn spec_flush_due(len: nat, max: nat) -> bool {
    len >= max
}

/// One prepared flush: the path of the create-only file and the exact
/// bytes to write into it.
pub struct FlushPlan {
    pub path: String,
    pub payload: Vec<u8>,
}

/// What the caller's attempt to persist a prepared flush came to: the
/// file was created and fully written; the path already existed (the
/// create-only collision); or the create or the write failed.
#[derive(Copy, Clone, Debug, PartialEq, Eq, Structural)]
pub enum WriteOutcome {
    Created,
    AlreadyExists,
    WriteFailed,
}

/// The chunk buffer: accumulates domain events in arrival order and
/// turns them, chunk by chunk, into the path and payload of one
/// create-only output file per flush.
pub struct EventChunkWriter {
    /// The in-memory chunk, owned exclusively by the writer.
    pub buffer: Vec<KeyLogEvent>,
    /// The directory the chunk files go into; the caller must make
    /// sure it exists and is a directory before building the writer.
    pub output_directory: String,
    /// Bound on the chunk length at which a flush becomes due.
    pub max_chunk_size: usize,
    /// Serialization format of persisted chunks.
    pub log_format: KeyLogFormat,
    /// Compression method of persisted chunks.
    pub compress_method: KeyLogCompressionMethod,
}

impl EventChunkWriter {
    /// The configuration — everything but the buffer — is the same in
    /// `self` and `other`.
    pub open spec fn spec_config_unchanged(self, other: Self) -> bool {
        self.output_directory@ == other.output_directory@ && self.max_chunk_size
            == other.max_chunk_size && self.log_format == other.log_format && self.compress_method
            == other.compress_method
    }

    /// The exact bytes a flush of the current chunk persists: the
    /// chunk serialized in full, then compressed.
    pub open spec fn spec_payload(self) -> Seq<u8> {
        spec_compress(spec_serialize(self.buffer@, self.log_format), self.compress_method)
    }

    /// Creates a writer with an empty chunk. The caller must have made
    /// sure `output_directory` exists and is a directory. A bound of
    /// zero is allowed: every add is then immediately flush-due.
    pub fn new(
        output_directory: String,
        max_chunk_size: usize,
        log_format: KeyLogFormat,
        compress_method: KeyLogCompressionMethod,
    ) -> (r: EventChunkWriter)
        ensures
            r.buffer@ == Seq::<KeyLogEvent>::empty(),
            r.output_directory@ == output_directory@,
            r.max_chunk_size == max_chunk_size,
            r.log_format == log_format,
            r.compress_method == compress_method,
    {
        EventChunkWriter {
            buffer: Vec::new(),
            output_directory,
            max_chunk_size,
            log_format,
            compress_method,
        }
    }

    /// Appends one event to the chunk; events are never reordered or
    /// dropped. The result says whether a flush is now due — exactly
    /// when the chunk has reached the configured bound.
    pub fn add(&mut self, event: KeyLogEvent) -> (flush_due: bool)
        ensures
            final(self).buffer@ == old(self).buffer@.push(event),
            final(self).spec_config_unchanged(*old(self)),
            flush_due == spec_flush_due(
                final(self).buffer@.len(),
                final(self).max_chunk_size as nat,
            ),
    {
        self.buffer.push(event);
        self.buffer.len() >= self.max_chunk_size
    }

    /// Prepares the flush of the current chunk at wall-clock time
    /// `now_secs`, a second count that the file name renders as a
    /// civil `YYYY-MM-DDTHH:MM:SS` time; a caller that wants local
    /// wall-clock names passes local-offset-adjusted seconds. An
    /// empty chunk needs
    /// no file: the result is `Ok(None)` exactly then. Otherwise the
    /// plan holds the serialized, compressed image of the whole chunk
    /// and the create-only path named by the formatted flush time. The
    /// buffer is untouched: it is cleared only by
    /// [`Self::finish_flush`] once the caller reports that the write
    /// went through. Preparing fails only when the flush time cannot
    /// be formatted, which the supported range of seconds rules out.
    pub fn prepare_flush(&self, now_secs: i64) -> (r: Result<Option<FlushPlan>, KeyLogError>)
        ensures
            self.buffer@.len() == 0 <==> r == Ok::<Option<FlushPlan>, KeyLogError>(None),
            r matches Ok(Some(plan)) ==> self.buffer@.len() > 0 && plan.payload@
                == self.spec_payload() && plan.path@ == spec_chunk_path(
                self.output_directory@,
                now_secs as int,
            ),
            r matches Err(e) ==> self.buffer@.len() > 0 && e == KeyLogError::PersistenceError
                && !(0 <= now_secs <= MAX_FORMATTED_SECS),
            (self.buffer@.len() > 0 && 0 <= now_secs <= MAX_FORMATTED_SECS) ==> r matches Ok(
                Some(_),
            ),
    {
        if self.buffer.len() == 0 {
            return Ok(None);
        }
        let filename = match format_utc_seconds(now_secs) {
            Some(s) => s,
            None => {
                return Err(KeyLogError::PersistenceError);
            },
        };
        let serialized = serialize_events(&self.buffer, self.log_format).unwrap();
        let payload = compress_data(serialized.as_slice(), self.compress_method).unwrap();
        let mut path = self.output_directory.clone();
        path.append("/");
        path.append(filename.as_str());
        path.append(".log");
        proof {
            assert(path@ =~= spec_chunk_path(self.output_directory@, now_secs as int));
        }
        Ok(Some(FlushPlan { path, payload }))
    }

    /// Ends a flush attempt with the caller's write outcome. A created
    /// and fully written file completes the flush: the chunk is
    /// cleared. Any other outcome — the create-only collision when the
    /// path already existed, or a failed create or write — is a
    /// persistence error and loses nothing: the buffer still holds
    /// every event, in order, for the next attempt.
    pub fn finish_flush(&mut self, outcome: WriteOutcome) -> (r: Result<(), KeyLogError>)
        ensures
            final(self).spec_config_unchanged(*old(self)),
            outcome == WriteOutcome::Created ==> final(self).buffer@
                == Seq::<KeyLogEvent>::empty() && r is Ok,
            outcome != WriteOutcome::Created ==> final(self).buffer@ == old(self).buffer@ && r
                == Err::<(), KeyLogError>(KeyLogError::PersistenceError),
    {
        match outcome {
            WriteOutcome::Created => {
                self.buffer.clear();
                Ok(())
            },
            WriteOutcome::AlreadyExists => Err(KeyLogError::PersistenceError),
            WriteOutcome::WriteFailed => Err(KeyLogError::PersistenceError),
        }
    }
}

/// Buffered length and flush count after `n` events go one by one
/// into a writer that starts empty with bound `max`, the caller
/// persisting each due flush successfully, so that each due chunk is
/// cleared before the next event arrives.
pub open spec fn spec_adds_outcome(n: nat, max: nat) -> (nat, nat)
    decreases n,
{
    if n == 0 {
        (0nat, 0nat)
    } else {
        let prev = spec_adds_outcome((n - 1) as nat, max);
        if spec_flush_due((prev.0 + 1) as nat, max) {
            (0nat, (prev.1 + 1) as nat)
        } else {
            ((prev.0 + 1) as nat, prev.1)
        }
    }
}

proof fn lemma_adds_below(n: nat, max: nat)
    requires
        n < max,
    ensures
        spec_adds_outcome(n, max) == ((n, 0nat)),
    decreases n,
{
    if n > 0 {
        lemma_adds_below((n - 1) as nat, max);
    }
}

/// Filename collision law: chunk paths are named by the formatted
/// flush time alone, so two flushes whose formatted timestamps
/// coincide aim at the same path — and the second then ends, through
/// [`EventChunkWriter::finish_flush`] on the create-only collision,
/// in a persistence error instead of overwriting the first file.
pub proof fn lemma_colliding_flush_paths(dir: Seq<char>, secs1: int, secs2: int)
    requires
        spec_utc_text(secs1) == spec_utc_text(secs2),
    ensures
        spec_chunk_path(dir, secs1) == spec_chunk_path(dir, secs2),
{
}

/// Chunk threshold law: with bound `max`, adding exactly `max` events
/// to a fresh writer triggers exactly one flush and leaves the chunk
/// empty, while adding `max - 1` events triggers none and keeps all
/// of them buffered.
pub proof fn lemma_chunk_threshold(max: nat)
    requires
        max >= 1,
    ensures
        spec_adds_outcome(max, max) == ((0nat, 1nat)),
        spec_adds_outcome((max - 1) as nat, max) == (((max - 1) as nat, 0nat)),
{
    lemma_adds_below((max - 1) as nat, max);
}

} // verus!
