//! The two-tier error taxonomy: recoverable notices are reported on standard
//! output and the process exits successfully; fatal errors go to the error
//! stream with a non-zero exit.

use vstd::prelude::*;

verus! {

/// A user-facing error, already split into its tier.
#[derive(Debug, PartialEq, Eq)]
pub enum WeftError {
    /// A notice that is not a failure: the process exits successfully.
    Recoverable(String),
    /// A failure: reported on the error stream, non-zero exit.
    Fatal(String),
}

impl WeftError {
    pub open spec fn spec_message(&self) -> Seq<char> {
        match self {
            WeftError::Recoverable(m) => m@,
            WeftError::Fatal(m) => m@,
        }
    }

    pub fn recoverable(msg: String) -> (e: Self)
        ensures
            e == WeftError::Recoverable(msg),
    {
        WeftError::Recoverable(msg)
    }

    pub fn fatal(msg: String) -> (e: Self)
        ensures
            e == WeftError::Fatal(msg),
    {
        WeftError::Fatal(msg)
    }

    pub fn is_recoverable(&self) -> (r: bool)
        ensures
            r == (self is Recoverable),
    {
        match self {
            WeftError::Recoverable(_) => true,
            WeftError::Fatal(_) => false,
        }
    }

    pub fn message(&self) -> (m: &String)
        ensures
            m@ == self.spec_message(),
    {
        match self {
            WeftError::Recoverable(m) => m,
            WeftError::Fatal(m) => m,
        }
    }

    /// The process exit status this error calls for: zero for a recoverable
    /// notice, one for a fatal error.
    pub fn exit_status(&self) -> (s: u8)
        ensures
            s == 0 <==> self is Recoverable,
            s == 0 || s == 1,
    {
        if self.is_recoverable() {
            0
        } else {
            1
        }
    }
}

/// A failure condition of one of the core operations, before any user-facing
/// text is attached to it.
#[derive(Clone, Copy, PartialEq, Eq, Debug)]
pub enum Fault {
    /// `init` found an existing weft head for this user.
    AlreadyInitialized,
    /// The user has no weft head yet.
    NotInitialized,
    /// The op log holds no entry.
    EmptyLog,
    /// The last non-blank op log line does not parse.
    CorruptLog,
    /// The last op log entry carries an inverse tag this build does not know.
    UnknownInverseOp,
    /// The candidate exists neither locally nor on the shared store.
    CandidateNotFound,
    /// The candidate's commit still carries unresolved conflicts.
    TangledCandidate,
    /// No local mainline reference exists.
    NoMainBranch,
    /// The shared mainline advanced since the candidate was proposed.
    MainlineMoved,
    /// The shared store rejected the publication outright.
    PublishFailed,
    /// No identity could be resolved from any source.
    NoIdentity,
}

impl Fault {
    /// Only the `init`-on-an-initialized-weft notice is recoverable; every
    /// other fault is fatal.
    pub fn is_recoverable(&self) -> (r: bool)
        ensures
            r == (self is AlreadyInitialized),
    {
        match self {
            Fault::AlreadyInitialized => true,
            _ => false,
        }
    }
}

} // verus!
