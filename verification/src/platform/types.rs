//! The records a CTF platform hands out.
use vstd::prelude::*;

use crate::clock::Timestamp;

verus! {

/// The characters of an optional string.
pub open spec fn opt_str_view(o: Option<String>) -> Option<Seq<char>> {
    match o {
        Some(s) => Some(s@),
        None => None,
    }
}

/// The characters of each string of a sequence.
pub open spec fn strs_view(v: Seq<String>) -> Seq<Seq<char>> {
    v.map_values(|s: String| s@)
}

/// A hint, by its content: shared by the platform's hints and the cached ones.
pub struct HintView {
    pub id: Seq<char>,
    pub content: Option<Seq<char>>,
    pub cost: u32,
}

/// A file reference, by its content: shared by platform and cached files.
pub struct FileView {
    pub name: Seq<char>,
    pub url: Seq<char>,
}

/// A challenge, by its content.
pub struct ChallengeView {
    pub id: Seq<char>,
    pub name: Seq<char>,
    pub category: Seq<char>,
    pub description: Seq<char>,
    pub value: u32,
    pub solves: u32,
    pub solved_by_me: bool,
    pub files: Seq<FileView>,
    pub tags: Seq<Seq<char>>,
    pub hints: Seq<HintView>,
}

/// A challenge as listed by the platform.
#[derive(Debug, Clone)]
pub struct Challenge {
    pub id: String,
    pub name: String,
    pub category: String,
    pub description: String,
    pub value: u32,
    pub solves: u32,
    pub solved_by_me: bool,
    pub files: Vec<ChallengeFile>,
    pub tags: Vec<String>,
    pub hints: Vec<Hint>,
}

/// A file attached to a challenge.
#[derive(Debug, Clone)]
pub struct ChallengeFile {
    pub name: String,
    pub url: String,
}

/// A hint; `content` is `None` while the hint is locked.
#[derive(Debug, Clone)]
pub struct Hint {
    pub id: String,
    pub content: Option<String>,
    pub cost: u32,
}

impl View for Hint {
    type V = HintView;

    open spec fn view(&self) -> HintView {
        HintView { id: self.id@, content: opt_str_view(self.content), cost: self.cost }
    }
}

impl View for ChallengeFile {
    type V = FileView;

    open spec fn view(&self) -> FileView {
        FileView { name: self.name@, url: self.url@ }
    }
}

impl View for Challenge {
    type V = ChallengeView;

    open spec fn view(&self) -> ChallengeView {
        ChallengeView {
            id: self.id@,
            name: self.name@,
            category: self.category@,
            description: self.description@,
            value: self.value,
            solves: self.solves,
            solved_by_me: self.solved_by_me,
            files: self.files@.map_values(|f: ChallengeFile| f@),
            tags: strs_view(self.tags@),
            hints: self.hints@.map_values(|h: Hint| h@),
        }
    }
}

/// The views of a sequence of challenges.
pub open spec fn challenges_view(s: Seq<Challenge>) -> Seq<ChallengeView> {
    s.map_values(|c: Challenge| c@)
}

/// The platform's answer to a flag submission.
#[derive(Debug, Clone)]
pub enum SubmitResult {
    Correct { challenge: String, points: u32 },
    Incorrect,
    AlreadySolved,
    RateLimited { retry_after: Option<u64> },
}

/// A row of the scoreboard.
#[derive(Debug, Clone)]
pub struct ScoreboardEntry {
    pub rank: u32,
    pub name: String,
    pub score: u32,
}

/// The authenticated team or user.
#[derive(Debug, Clone)]
pub struct TeamInfo {
    pub name: String,
    pub score: u32,
    pub rank: Option<u32>,
    pub solves: Vec<SolveInfo>,
}

/// One solve of the team.
#[derive(Debug, Clone)]
pub struct SolveInfo {
    pub challenge_id: String,
    pub challenge_name: String,
    pub solved_at: Timestamp,
    pub points: u32,
}

/// A competition announcement.
#[derive(Debug, Clone)]
pub struct Notification {
    pub id: String,
    pub title: String,
    pub content: String,
}

} // verus!
