//! Capture of key events into chunked, codec-encoded log files.
//!
//! The library holds the verified core of a key-event logger: the domain
//! event types and the normalizer that filters raw device events, the
//! serialization codec for event sequences, the compression layer, the
//! chunk buffer with its flush protocol, and the one-shot converter
//! between codec configurations. File and device I/O stay outside:
//! callers hand in plain bytes and write the bytes the library hands
//! back.
//!
//! Both serializations are this crate's own byte formats, stated
//! exactly by the codec modules' spec functions, and the decoders are
//! strict: they accept exactly what the encoders emit. No promise is
//! made about byte formats of other programs.

pub mod binary_codec;
pub mod chunk_writer;
pub mod codec;
pub mod compress;
pub mod config;
pub mod convert;
pub mod device;
pub mod errors;
pub mod json_codec;
pub mod key_events;
