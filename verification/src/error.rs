//! The error taxonomy shared by every component.
//!
//! The one locally recoverable failure is [`GDError::TimeoutElapsedError`]:
//! the retry policy re-runs an operation only when it failed with that
//! variant. Every other variant aborts the current query attempt.

use vstd::prelude::*;

verus! {

/// Which transport carried the operation that failed.
#[derive(Debug, Clone, Copy, PartialEq, Eq, Structural)]
pub enum NetworkProtocol {
    Tcp,
    Udp,
}

/// A query failure.
///
/// Remote servers are untrusted: malformed input surfaces as one of these
/// values, never as a panic.
#[derive(Debug, Clone, PartialEq, Eq)]
pub enum GDError {
    /// A cursor read asked for more bytes than remain. Carries the requested
    /// and available counts plus a snapshot of the read position and the
    /// whole buffer, so a malformed response can be diagnosed offline.
    UnderflowError { attempted: usize, available: usize, pos: usize, buffer: Vec<u8> },
    /// The transport failed to establish a connection.
    ConnectionError { protocol: NetworkProtocol, address: String },
    /// An operation's configured timeout fired before it completed.
    TimeoutElapsedError { protocol: NetworkProtocol, address: String },
    /// The underlying I/O failed while reading, for a reason other than a
    /// timeout.
    ReadError { protocol: NetworkProtocol, address: String },
    /// The underlying I/O failed while writing, for a reason other than a
    /// timeout.
    WriteError { protocol: NetworkProtocol, address: String },
    /// Structurally or semantically invalid decoded content.
    PacketBad,
    /// A payload that should be structured data is not well-formed.
    JsonParse,
    /// Every protocol of a fallback sequence failed.
    AutoQuery,
}

impl GDError {
    /// Whether this failure is a timeout, the only kind the retry policy
    /// may recover from.
    pub open spec fn is_timeout_spec(&self) -> bool {
        self is TimeoutElapsedError
    }

    /// Distinguishes "timed out" from "failed for another reason" without
    /// looking at any transport detail.
    pub fn is_timeout(&self) -> (r: bool)
        ensures
            r == self.is_timeout_spec(),
    {
        match self {
            GDError::TimeoutElapsedError { .. } => true,
            _ => false,
        }
    }

    /// A short name of the variant, for diagnostics.
    pub fn kind_name(&self) -> String {
        match self {
            GDError::UnderflowError { .. } => String::from_str("underflow"),
            GDError::ConnectionError { .. } => String::from_str("connection"),
            GDError::TimeoutElapsedError { .. } => String::from_str("timeout elapsed"),
            GDError::ReadError { .. } => String::from_str("read"),
            GDError::WriteError { .. } => String::from_str("write"),
            GDError::PacketBad => String::from_str("bad packet"),
            GDError::JsonParse => String::from_str("json parse"),
            GDError::AutoQuery => String::from_str("auto query failed"),
        }
    }
}

/// Which transport operation an outcome belongs to.
#[derive(Debug, Clone, Copy, PartialEq, Eq, Structural)]
pub enum TransportOp {
    Connect,
    Read,
    Write,
}

/// The three-way outcome classification of a failed transport operation:
/// a timeout maps to the one locally recoverable variant, anything else
/// to the variant of the operation that failed, each carrying the
/// protocol kind and the remote address.
pub fn transport_error(
    protocol: NetworkProtocol,
    op: TransportOp,
    timed_out: bool,
    address: String,
) -> (r: GDError)
    ensures
        timed_out ==> r == (GDError::TimeoutElapsedError { protocol, address }),
        !timed_out && op == TransportOp::Connect ==> r == (GDError::ConnectionError {
            protocol,
            address,
        }),
        !timed_out && op == TransportOp::Read ==> r == (GDError::ReadError { protocol, address }),
        !timed_out && op == TransportOp::Write ==> r == (GDError::WriteError {
            protocol,
            address,
        }),
        r.is_timeout_spec() == timed_out,
{
    if timed_out {
        GDError::TimeoutElapsedError { protocol, address }
    } else {
        match op {
            TransportOp::Connect => GDError::ConnectionError { protocol, address },
            TransportOp::Read => GDError::ReadError { protocol, address },
            TransportOp::Write => GDError::WriteError { protocol, address },
        }
    }
}

/// The usual result type of this library.
pub type GDResult<T> = Result<T, GDError>;

} // verus!
