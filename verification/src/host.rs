//! What the host does for plugins that needs no outside service: the level
//! of a plugin's log line, the reply to unsupported calls, and the filter
//! that logging starts with.
use vstd::prelude::*;

use crate::text::str_eq;

verus! {

/// What `str::to_lowercase` gives for a text.
pub uninterp spec fn lowercase(s: Seq<char>) -> Seq<char>;

/// Calls `str::to_lowercase`. Claimed: the result is the named lower-case
/// form of the argument.
#[verifier::external_body]
fn to_lowercase(s: &str) -> (r: String)
    ensures
        r@ == lowercase(s@),
{
    s.to_lowercase()
}

/// The levels of log lines.
#[derive(Debug, Clone, Copy, PartialEq, Eq, Structural)]
pub enum LogLevel {
    Error,
    Warn,
    Info,
    Debug,
    Trace,
}

/// The level a lower-case level name stands for; unknown names stand for
/// `Info`.
pub open spec fn level_of(name: Seq<char>) -> LogLevel {
    if name == "error"@ {
        LogLevel::Error
    } else if name == "warn"@ {
        LogLevel::Warn
    } else if name == "info"@ {
        LogLevel::Info
    } else if name == "debug"@ {
        LogLevel::Debug
    } else if name == "trace"@ {
        LogLevel::Trace
    } else {
        LogLevel::Info
    }
}

/// The level a plugin's log line is written at, read without regard to case.
pub fn log_level(level: &str) -> (r: LogLevel)
    ensures
        r == level_of(lowercase(level@)),
{
    let lower = to_lowercase(level);
    let l = lower.as_str();
    if str_eq(l, "error") {
        LogLevel::Error
    } else if str_eq(l, "warn") {
        LogLevel::Warn
    } else if str_eq(l, "info") {
        LogLevel::Info
    } else if str_eq(l, "debug") {
        LogLevel::Debug
    } else if str_eq(l, "trace") {
        LogLevel::Trace
    } else {
        LogLevel::Info
    }
}

/// Replying to an interaction is not offered to plugins yet: the call fails
/// with a message that says so.
pub fn send_interaction_response(_interaction_id: u64, _token: String, _content: String) -> (r: Result<
    (),
    String,
>)
    ensures
        r matches Err(m) && m@ == "interaction responses not yet implemented"@,
{
    Err(String::from_str("interaction responses not yet implemented"))
}

/// The host functions that a plugin's manifest (`[permissions]`) enables.
pub struct Permissions {
    /// `http = true`: the plugin may send HTTP requests.
    pub http: bool,
}

/// The version of the plugin interface that this host offers; a manifest's
/// `abi_version` names the version a plugin was built for.
pub const HOST_ABI_VERSION: u64 = 1;

/// Whether a plugin may be loaded, by the `abi_version` of its manifest: a
/// plugin built for another version of the interface is blocked; one whose
/// manifest names no version, or that has no manifest, is not.
pub fn abi_allows(abi_version: Option<u64>) -> (r: bool)
    ensures
        r <==> (abi_version is None || abi_version == Some(HOST_ABI_VERSION)),
{
    match abi_version {
        None => true,
        Some(v) => v == HOST_ABI_VERSION,
    }
}

/// The parts of an HTTP request that a plugin asks the host to send.
pub struct HttpRequestParts {
    pub method: String,
    pub url: String,
    pub body: Vec<u8>,
}

/// The request that a plugin's `http-request` call sends: the method, URL
/// and body it passed, where its manifest enables `http`; without that
/// permission the call fails and nothing is sent.
pub fn http_request_for(permissions: &Permissions, url: String, method: String, body: Vec<u8>) -> (r: Result<
    HttpRequestParts,
    String,
>)
    ensures
        r is Ok <==> permissions.http,
        r matches Ok(p) ==> p.method@ == method@ && p.url@ == url@ && p.body@ == body@,
        r matches Err(m) ==> m@ == "permission denied: http"@,
{
    if permissions.http {
        Ok(HttpRequestParts { method, url, body })
    } else {
        Err(String::from_str("permission denied: http"))
    }
}

/// The filter that logging starts with when `LOG_LEVEL` is not set.
pub open spec fn default_log_filter() -> Seq<char> {
    seq!['y', 'n', 's', 'r', 'v', 'c', 's', '=', 'i', 'n', 'f', 'o']
}

/// The filter that logging starts with: the value of `LOG_LEVEL` where it
/// is set (the caller reads the environment), else `ynsrvcs=info`.
pub fn log_filter(log_level_var: Option<String>) -> (r: String)
    ensures
        match log_level_var {
            Some(v) => r@ == v@,
            None => r@ == default_log_filter(),
        },
{
    match log_level_var {
        Some(v) => v,
        None => {
            let r = String::from_str("ynsrvcs=info");
            proof {
                reveal_strlit("ynsrvcs=info");
            }
            r
        },
    }
}

} // verus!
