use vstd::prelude::*;

verus! {

/// Why an operation on a handle or database failed.
///
/// Failures have two origins: a supplied string holds an embedded NUL and
/// cannot cross into a C-style byte string (`InvalidName`), or the request
/// itself is refused (everything else).
#[derive(Clone, Copy, Debug, PartialEq, Eq, Structural)]
pub enum Error {
    /// An input string holds an embedded NUL, so it has no null-terminated
    /// byte-string form. No registry state is touched when this is returned.
    InvalidName,
    /// Registration was refused: a database of this name is already
    /// registered with the handle.
    DuplicateName,
    /// Registration was refused: the signature-level bitmask combines
    /// `USE_DEFAULT` with explicit trust bits.
    InvalidSigLevel,
    /// A search pattern uses regular-expression syntax beyond the supported
    /// anchored-literal dialect, so matching it literally would be wrong.
    UnsupportedPattern,
    /// A package lookup or search found no matching cache entry.
    PkgNotFound,
    /// A group lookup found no group of that name.
    GroupNotFound,
    /// A server URL to remove is not in the server list.
    ServerNotFound,
}

impl Error {
    /// A short human-readable description of the failure.
    pub fn message(&self) -> (r: &'static str)
        ensures
            r@.len() > 0,
    {
        let r = match self {
            Error::InvalidName => "string holds an embedded NUL",
            Error::DuplicateName => "database name already registered",
            Error::InvalidSigLevel => "invalid signature-level combination",
            Error::UnsupportedPattern => "pattern syntax not supported",
            Error::PkgNotFound => "package not found",
            Error::GroupNotFound => "group not found",
            Error::ServerNotFound => "server not in the list",
        };
        proof {
            reveal_strlit("string holds an embedded NUL");
            reveal_strlit("database name already registered");
            reveal_strlit("invalid signature-level combination");
            reveal_strlit("pattern syntax not supported");
            reveal_strlit("package not found");
            reveal_strlit("group not found");
            reveal_strlit("server not in the list");
        }
        r
    }
}

} // verus!
