use vstd::prelude::*;

verus! {

/// Every failure that the library's operations can report.
///
/// The string payloads carry the diagnostic detail that the caller is meant
/// to show: the paths that were probed, the literal that failed to parse, or
/// the description handed back by an external facility.
#[derive(Debug, PartialEq, Eq)]
pub enum ThemerError {
    /// The configuration text could not be understood.
    TomlReadError(String),
    /// A file could not be read or written.
    FileReadWriteError(String),
    /// A required environment variable was not set.
    EnvironmentVarError(String),
    /// An environment variable held a value that is not valid text.
    EnvVarToStrError(String),
    /// One or more of a theme's search directories do not exist; the payload
    /// lists each missing directory, quoted and space-separated, in
    /// declaration order.
    ThemePathsNotFoundError(String),
    /// No candidate sound file exists; the payload lists every path that was
    /// checked, quoted and space-separated, in probe order.
    SoundPathsNotFoundError(String),
    /// An external command could not be run.
    CommandError { name: String, args: Vec<String>, e: String },
    /// Bytes could not be converted to text.
    StringFromUtf8Error(String),
    /// The shared theme slot's lock could not be acquired.
    MutexLockError(String),
    /// A path could not be created.
    PathCreateError(String),
    /// No theme with the requested name is configured.
    HashMapEntryError(String),
    /// A random theme was requested but no themes are configured.
    EmptyThemesError(String),
    /// A playback-duration expression could not be parsed; `from` is the
    /// offending input and `e` describes the expected grammar.
    PlaybackFromStrError { from: String, e: String },
    /// An audio file's container could not be probed for its duration.
    SoundDecoderError(String),
    /// A requested absolute playback duration exceeds the sound's natural
    /// length. The fields are the natural and the requested duration, in
    /// microseconds.
    DurationTooLongError(u64, u64),
}

} // verus!
