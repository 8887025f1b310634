//! GitHub Checks API publishing: pure payload transformation.
//!
//! Given a [`Status`] plus job context, the generated [`CheckRunPayload`]
//! conforms to GitHub's schema for `POST /repos/{owner}/{repo}/check-runs`.
//! The HTTP call, authentication and webhook ingestion are elsewhere.

use crate::status::Status;
use vstd::prelude::*;

verus! {

/// What is POSTed to `https://api.github.com/repos/{owner}/{repo}/check-runs`.
#[derive(Clone, Debug, PartialEq, Eq)]
pub struct CheckRunPayload {
    /// Display name of the check run.
    pub name: String,
    /// SHA of the commit the check applies to. 40 lowercase hex chars.
    pub head_sha: String,
    /// Lifecycle state at GitHub.
    pub status: CheckStatus,
    /// Present exactly when `status == Completed`.
    pub conclusion: Option<CheckConclusion>,
    /// Public URL for the run details.
    pub details_url: Option<String>,
    /// Human-readable summary block.
    pub output: CheckOutput,
}

/// GitHub's `status` enum.
#[derive(Clone, Copy, Debug, PartialEq, Eq, Structural)]
pub enum CheckStatus {
    /// Accepted but not started.
    Queued,
    /// Currently running.
    InProgress,
    /// Terminal; see `conclusion` for the result class.
    Completed,
}

/// GitHub's `conclusion` enum (only valid when `status == Completed`).
#[derive(Clone, Copy, Debug, PartialEq, Eq, Structural)]
pub enum CheckConclusion {
    /// Quorum agreed Pass.
    Success,
    /// Quorum agreed Fail.
    Failure,
    /// No consensus reached: needs review.
    Neutral,
    /// Job was canceled.
    Cancelled,
    /// Reserved; not emitted.
    Skipped,
}

/// The visible-on-GitHub block.
#[derive(Clone, Debug, PartialEq, Eq)]
pub struct CheckOutput {
    /// Short header.
    pub title: String,
    /// Markdown summary visible in the GitHub UI.
    pub summary: String,
}

/// Job context the caller supplies to the payload builder.
#[derive(Clone, Debug, PartialEq, Eq)]
pub struct JobContext<'a> {
    /// Display name for the check run (e.g. `"cosaci/build"`).
    pub name: &'a str,
    /// 40-char lowercase commit SHA.
    pub commit_sha: &'a str,
    /// Optional URL to the run details (read-API bundle).
    pub details_url: Option<&'a str>,
    /// Markdown-rendered summary content.
    pub summary: &'a str,
    /// Title of the output block.
    pub title: &'a str,
}

/// The status and conclusion that GitHub is told.
pub open spec fn check_status_of(s: Status) -> (CheckStatus, Option<CheckConclusion>) {
    match s {
        Status::Pending => (CheckStatus::Queued, None),
        Status::Running => (CheckStatus::InProgress, None),
        Status::QuorumVerifying => (CheckStatus::InProgress, None),
        Status::Success => (CheckStatus::Completed, Some(CheckConclusion::Success)),
        Status::Failure => (CheckStatus::Completed, Some(CheckConclusion::Failure)),
    }
}

/// Map a `Status` to GitHub's `(check_status, conclusion)` pair. GitHub
/// doesn't model "verifying quorum": both Running and QuorumVerifying surface
/// as `in_progress`.
#[must_use]
pub fn status_to_check_status(s: Status) -> (r: (CheckStatus, Option<CheckConclusion>))
    ensures
        r == check_status_of(s),
{
    match s {
        Status::Pending => (CheckStatus::Queued, None),
        Status::Running => (CheckStatus::InProgress, None),
        Status::QuorumVerifying => (CheckStatus::InProgress, None),
        Status::Success => (CheckStatus::Completed, Some(CheckConclusion::Success)),
        Status::Failure => (CheckStatus::Completed, Some(CheckConclusion::Failure)),
    }
}

/// Build a `CheckRunPayload` for the given status + context. The
/// caller is responsible for delivering it to GitHub's API.
#[must_use]
pub fn build_payload(status: Status, ctx: &JobContext<'_>) -> (r: CheckRunPayload)
    ensures
        r.name@ == ctx.name@,
        r.head_sha@ == ctx.commit_sha@,
        (r.status, r.conclusion) == check_status_of(status),
        r.details_url is Some <==> ctx.details_url is Some,
        r.details_url matches Some(u) ==> u@ == ctx.details_url->0@,
        r.output.title@ == ctx.title@,
        r.output.summary@ == ctx.summary@,
{
    let (check_status, conclusion) = status_to_check_status(status);
    let details_url = match ctx.details_url {
        Some(u) => Some(u.to_owned()),
        None => None,
    };
    CheckRunPayload {
        name: ctx.name.to_owned(),
        head_sha: ctx.commit_sha.to_owned(),
        status: check_status,
        conclusion,
        details_url,
        output: CheckOutput { title: ctx.title.to_owned(), summary: ctx.summary.to_owned() },
    }
}

/// GitHub's schema: a conclusion is there exactly when the check is completed,
/// and the check is completed exactly when the job is over.
pub proof fn law_conclusion_iff_completed(s: Status)
    ensures
        check_status_of(s).1 is Some <==> check_status_of(s).0 == CheckStatus::Completed,
        check_status_of(s).0 == CheckStatus::Completed <==> crate::status::terminal_status(s),
{
}

/// A check concludes as the job did, and nothing runs before it has started.
pub proof fn law_check_tells_the_status(s: Status)
    ensures
        check_status_of(s).1 == Some(CheckConclusion::Success) <==> s == Status::Success,
        check_status_of(s).1 == Some(CheckConclusion::Failure) <==> s == Status::Failure,
        check_status_of(s).0 == CheckStatus::Queued <==> s == Status::Pending,
        check_status_of(s).0 == CheckStatus::InProgress <==> s == Status::Running || s
            == Status::QuorumVerifying,
{
}

} // verus!
