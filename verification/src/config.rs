//! Configuration values for the capture and conversion runs.
//!
//! These are the plain values of the command-line surface: the caller
//! parses whatever syntax it likes and hands the library these.

use vstd::prelude::*;
use crate::codec::KeyLogFormat;
use crate::compress::KeyLogCompressionMethod;

verus! {

/// What a capture run needs: the device, the output directory, and
/// the codec configuration of the persisted chunks.
#[derive(Debug)]
pub struct StartKeyLoggerArguments {
    /// A filesystem path of an event device, or the exact reported
    /// name of one.
    pub device: String,
    /// The directory the chunk files go into.
    pub output_directory: String,
    /// Serialization format of persisted chunks.
    pub output_format: KeyLogFormat,
    /// Compression method of persisted chunks.
    pub output_compression_method: KeyLogCompressionMethod,
}

/// What a conversion run needs: the paths and the codec configuration
/// on each side.
#[derive(Debug)]
pub struct ConvertKeyLogFileArgument {
    /// The chunk file to read.
    pub input_path: String,
    /// The file to write; unlike chunk files it may be overwritten.
    pub output_path: String,
    /// Serialization format the input was written with.
    pub input_format: KeyLogFormat,
    /// Compression method the input was written with.
    pub input_compression_method: KeyLogCompressionMethod,
    /// Serialization format to write.
    pub output_format: KeyLogFormat,
    /// Compression method to write.
    pub output_compression_method: KeyLogCompressionMethod,
}

/// What a log-file listing run needs: the path of one chunk file.
#[derive(Debug)]
pub struct ParseKeyLogFileArguments {
    /// The chunk file to read.
    pub input_path: String,
}

/// The selected run.
#[derive(Debug)]
pub enum KeyLoggerSubCommand {
    Start(StartKeyLoggerArguments),
    ConvertLog(ConvertKeyLogFileArgument),
    ParseLog(ParseKeyLogFileArguments),
}

/// Top-level arguments: which run to perform.
#[derive(Debug)]
pub struct KeyLoggerArguments {
    pub subcommand: KeyLoggerSubCommand,
}

} // verus!
