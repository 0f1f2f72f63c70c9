//! The parameters of the MCP tools.
use vstd::prelude::*;

verus! {

/// Filters for listing challenges.
#[derive(Debug)]
pub struct ChallengesParams {
    /// Filter by category name (case-insensitive).
    pub category: Option<String>,
    /// Only show unsolved challenges.
    pub unsolved: Option<bool>,
    /// Only show solved challenges.
    pub solved: Option<bool>,
}

#[derive(Debug)]
pub struct ChallengeDetailParams {
    /// Challenge ID (numeric) or name (substring match supported).
    pub id_or_name: String,
}

#[derive(Debug)]
pub struct SubmitFlagParams {
    /// Challenge ID or name.
    pub challenge: String,
    /// The flag string to submit.
    pub flag: String,
}

#[derive(Debug)]
pub struct ScoreboardParams {
    /// Number of entries to return (default: 10).
    pub limit: Option<u32>,
}

#[derive(Debug)]
pub struct DownloadFilesParams {
    /// Challenge ID or name.
    pub challenge: String,
}

#[derive(Debug)]
pub struct UnlockHintParams {
    /// The hint ID to unlock.
    pub hint_id: String,
}

#[derive(Debug)]
pub struct SyncParams {
    /// If true, fetch full details (descriptions, hints, files) for every
    /// challenge. Slower but provides complete context.
    pub full: Option<bool>,
}

/// An update of the challenge queue.
#[derive(Debug)]
pub struct QueueUpdateParams {
    /// One of set_queue, start, complete, fail, clear.
    pub action: String,
    /// The new queue as JSON, for set_queue.
    pub queue_json: Option<String>,
    /// The challenge, for start, complete and fail.
    pub challenge: Option<String>,
    /// The challenge's category, for fail.
    pub category: Option<String>,
    /// Notes on the attempt, for fail.
    pub notes: Option<String>,
}

} // verus!
