//! Timeout and request configuration.
//!
//! Three independent per-operation timeouts — connect, read, write — with
//! process-wide defaults, plus the bounded retry count, all fixed once a
//! value is built. Durations are carried as whole milliseconds.

use vstd::prelude::*;

verus! {

/// The default for each of the three per-operation timeouts.
pub const DEFAULT_TIMEOUT_MS: u64 = 4000;

/// The default number of extra attempts after a timeout. A retry count
/// of `n` means a query makes at most `n + 1` attempts in all.
pub const DEFAULT_RETRIES: usize = 0;

/// Per-connection timeout durations and the retry bound. Immutable once
/// built.
#[derive(Debug, Clone, Copy, PartialEq, Eq, Structural)]
pub struct TimeoutSettings {
    connect_ms: u64,
    read_ms: u64,
    write_ms: u64,
    retries: usize,
}

impl TimeoutSettings {
    pub closed spec fn connect_ms_spec(&self) -> u64 {
        self.connect_ms
    }

    pub closed spec fn read_ms_spec(&self) -> u64 {
        self.read_ms
    }

    pub closed spec fn write_ms_spec(&self) -> u64 {
        self.write_ms
    }

    pub closed spec fn retries_spec(&self) -> usize {
        self.retries
    }

    /// Builds a configuration; an omitted duration falls back to the
    /// process-wide default, an omitted retry count to its default.
    pub fn new(connect_ms: Option<u64>, read_ms: Option<u64>, write_ms: Option<u64>, retries: Option<
        usize,
    >) -> (r: TimeoutSettings)
        ensures
            r.connect_ms_spec() == (if connect_ms is Some {
                connect_ms->0
            } else {
                DEFAULT_TIMEOUT_MS
            }),
            r.read_ms_spec() == (if read_ms is Some {
                read_ms->0
            } else {
                DEFAULT_TIMEOUT_MS
            }),
            r.write_ms_spec() == (if write_ms is Some {
                write_ms->0
            } else {
                DEFAULT_TIMEOUT_MS
            }),
            r.retries_spec() == (if retries is Some {
                retries->0
            } else {
                DEFAULT_RETRIES
            }),
    {
        TimeoutSettings {
            connect_ms: match connect_ms {
                Some(v) => v,
                None => DEFAULT_TIMEOUT_MS,
            },
            read_ms: match read_ms {
                Some(v) => v,
                None => DEFAULT_TIMEOUT_MS,
            },
            write_ms: match write_ms {
                Some(v) => v,
                None => DEFAULT_TIMEOUT_MS,
            },
            retries: match retries {
                Some(v) => v,
                None => DEFAULT_RETRIES,
            },
        }
    }

    pub fn get_connect_ms(&self) -> (r: u64)
        ensures
            r == self.connect_ms_spec(),
    {
        self.connect_ms
    }

    pub fn get_read_ms(&self) -> (r: u64)
        ensures
            r == self.read_ms_spec(),
    {
        self.read_ms
    }

    pub fn get_write_ms(&self) -> (r: u64)
        ensures
            r == self.write_ms_spec(),
    {
        self.write_ms
    }

    pub fn get_retries(&self) -> (r: usize)
        ensures
            r == self.retries_spec(),
    {
        self.retries
    }

    /// The retry count of `settings`, or the default where none was given.
    pub fn get_retries_or_default(settings: &Option<TimeoutSettings>) -> (r: usize)
        ensures
            settings matches Some(t) ==> r == t.retries_spec(),
            settings is None ==> r == DEFAULT_RETRIES,
    {
        match settings {
            Some(t) => t.retries,
            None => DEFAULT_RETRIES,
        }
    }
}

impl Default for TimeoutSettings {
    /// The process-wide defaults for every field.
    fn default() -> (r: TimeoutSettings)
        ensures
            r.connect_ms_spec() == DEFAULT_TIMEOUT_MS,
            r.read_ms_spec() == DEFAULT_TIMEOUT_MS,
            r.write_ms_spec() == DEFAULT_TIMEOUT_MS,
            r.retries_spec() == DEFAULT_RETRIES,
    {
        TimeoutSettings {
            connect_ms: DEFAULT_TIMEOUT_MS,
            read_ms: DEFAULT_TIMEOUT_MS,
            write_ms: DEFAULT_TIMEOUT_MS,
            retries: DEFAULT_RETRIES,
        }
    }
}

/// What the binary status handshake sends about the caller: an arbitrary
/// hostname and the wire protocol version to claim.
#[derive(Debug, Clone, PartialEq, Eq)]
pub struct RequestSettings {
    pub hostname: String,
    pub protocol_version: i32,
}

impl Default for RequestSettings {
    /// An arbitrary hostname and the version wildcard that asks the server
    /// to answer with its own version.
    fn default() -> (r: RequestSettings)
        ensures
            r.protocol_version == -1,
    {
        RequestSettings { hostname: String::from_str("gamedig"), protocol_version: -1 }
    }
}

} // verus!
