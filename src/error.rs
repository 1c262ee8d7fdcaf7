use vstd::prelude::*;

verus! {

/// The failure reasons of the storage layer.
#[derive(Debug, Clone, PartialEq, Eq)]
pub enum WasmVFSError {
    /// The execution context offers no key-value storage factory.
    NoSupport,
    /// A guarded resource's last writer did not release it normally.
    PoisonedLock,
    /// The host store rejected a request; its message, verbatim.
    WebError(String),
    /// A free-form failure message.
    ErrorString(String),
    /// An operation was attempted before the connection was established.
    NotOpen,
    /// A seek would move the cursor before the start of the file, or past
    /// the largest representable offset.
    InvalidSeek,
    /// A write or a stored file would grow past the largest file size.
    FileTooLarge,
    /// The stored pages of a file do not have the shape that writes give
    /// them.
    CorruptPages,
}

pub type WasmVFSResult<T> = Result<T, WasmVFSError>;

} // verus!
