use vstd::prelude::*;

verus! {

/// The ways an operation on the store can fail.
#[derive(Debug, Clone, Copy, PartialEq, Eq, Structural)]
pub enum GitError {
    /// An object, reference or file is absent.
    NotFound,
    /// An address or address prefix is not lowercase hex of a usable length.
    InvalidAddress,
    /// An abbreviated address matches more than one object.
    AmbiguousPrefix,
    /// A compressed object file could not be inflated.
    CorruptStream,
    /// An object header does not parse, or its declared length is wrong.
    MalformedHeader,
    /// The kind token of an object header is not a known kind.
    UnknownObjectKind,
    /// A tree payload does not follow the tree entry grammar.
    MalformedTree,
    /// A chain of symbolic references is longer than the resolver follows.
    RefLoop,
    /// The filesystem or the compressor reported a failure.
    IoError,
    /// The command is not provided by this library.
    Unsupported,
}

} // verus!
