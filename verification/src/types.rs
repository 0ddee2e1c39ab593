//! Plain data exchanged by the server: stored metadata, replicated
//! commands, update events and evaluation error bodies.
use vstd::prelude::*;

verus! {

/// Metadata about a stored flagfile.
pub struct Meta {
    pub hash: String,
    pub pushed_at: String,
    pub flags_count: u64,
}

/// Commands replicated through the Raft log.
pub enum RaftCommand {
    PutFlagfile { namespace: String, content: Vec<u8>, meta: Meta },
}

/// Event sent to subscribers when a flagfile is updated.
pub struct FlagUpdateEvent {
    pub hash: String,
    pub timestamp: String,
    pub flags_count: u64,
}

/// Error body of an OpenFeature remote evaluation.
pub struct OFREPEvalError {
    pub key: String,
    pub error_code: String,
    pub error_details: String,
}

/// Path parameters of the evaluation endpoint, root or namespaced.
pub struct EvalParams {
    pub flag_name: String,
    pub namespace: Option<String>,
}

} // verus!
