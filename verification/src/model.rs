//! Plain request and response shapes, and the input validation rules.

use vstd::prelude::*;

use crate::chars::{chars_string, dec_chars, spec_dec, str_chars};
use crate::content::TEContentList;

verus! {

pub struct AppVersion {
    pub name: String,
    pub version: String,
}

/// The runtime counters the health endpoint reports.
pub struct AppInfo {
    pub tokio_translating_tasks: i64,
    pub tokio_embedding_tasks: i64,
    pub scylla_latency_avg_ms: u64,
    pub scylla_latency_p99_ms: u64,
    pub scylla_latency_p90_ms: u64,
    pub scylla_errors_num: u64,
    pub scylla_queries_num: u64,
    pub scylla_errors_iter_num: u64,
    pub scylla_queries_iter_num: u64,
    pub scylla_retries_num: u64,
}

/// A marker for the request-context middleware the transport installs.
pub struct ContextLayer;

pub trait Validator {
    /// The first reason the value cannot be accepted, if any.
    fn validate(&self) -> Option<String>;
}

pub struct TEInput {
    pub did: String,
    pub lang: String,
    pub version: u16,
    pub model: String,
    pub content: TEContentList,
}

pub struct TEOutput {
    pub did: String,
    pub lang: String,
    pub used_tokens: usize,
    pub content: TEContentList,
}

impl TEInput {
    /// Why this input is rejected: an empty document id, an empty target
    /// language, or a version outside `1..=32767`.
    pub fn validate_input(&self) -> (r: Option<String>)
        ensures
            r is None <==> (self.did@.len() > 0 && self.lang@.len() > 0 && 1 <= self.version
                <= 32767),
            self.did@.len() == 0 ==> (r matches Some(m) && m@ == "invalid document id"@),
            self.did@.len() > 0 && self.lang@.len() == 0 ==> (r matches Some(m) && m@
                == "invalid target language"@),
            self.did@.len() > 0 && self.lang@.len() > 0 && (self.version == 0 || self.version
                > 32767) ==> (r matches Some(m) && m@ == "invalid version "@ + spec_dec(
                self.version as nat,
            )),
    {
        if self.did.as_str().is_empty() {
            return Some(String::from_str("invalid document id"));
        }
        if self.lang.as_str().is_empty() {
            return Some(String::from_str("invalid target language"));
        }
        if self.version == 0 || self.version > 32767 {
            let mut msg = str_chars("invalid version ");
            let num = dec_chars(self.version as u64);
            let n = num.len();
            for i in 0..n
                invariant
                    n == num@.len(),
                    msg@ == "invalid version "@ + num@.subrange(0, i as int),
            {
                msg.push(num[i]);
                proof {
                    assert(msg@ =~= "invalid version "@ + num@.subrange(0, i as int + 1));
                }
            }
            proof {
                assert(num@.subrange(0, n as int) =~= num@);
            }
            return Some(chars_string(&msg));
        }
        None
    }
}

impl Validator for TEInput {
    fn validate(&self) -> Option<String> {
        self.validate_input()
    }
}

/// The version range the request surface accepts.
pub fn valid_version(v: u16) -> (r: bool)
    ensures
        r == (1 <= v <= 10000),
{
    1 <= v && v <= 10000
}

} // verus!
