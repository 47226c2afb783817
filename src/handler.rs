//! The handling of one event: which events are contributions, and the
//! steps of the issue flow and of the pull-request flow. The caller does
//! each step against the platform and the repository and reports back.
use vstd::prelude::*;
use crate::text::{chars_of, matches_at, starts_with};
use crate::front_matter::{
    marker, parse_contribution, parse_spec, Contribution, ContributionView, ParseError,
};
use crate::stamping::{is_utc_timestamp, stamp_header, stamped, utc_now_rfc3339};
use crate::paths::{
    article_filename, article_filename_spec, article_path, article_path_spec, destination_filename,
    destination_spec,
};
use crate::diff::{all_article_paths, changed_files, validate_pr_diff};

verus! {

/// The repository that holds the wiki's content.
pub struct Repository {
    pub owner: String,
    pub name: String,
}

/// The invocation of the bot; its run id is its token for the lock.
#[derive(PartialEq, Eq, Structural, Debug, Clone, Copy)]
pub struct RunningInfo {
    pub run_id: u64,
}

/// The kind of an inbound event, as the payload names it.
#[derive(PartialEq, Eq, Structural, Debug, Clone, Copy)]
pub enum EventKind {
    IssueOpened,
    IssueReopened,
    PullRequestOpened,
    Other,
}

/// Where an event goes.
#[derive(PartialEq, Eq, Structural, Debug, Clone, Copy)]
pub enum Route {
    IssueCreated,
    IssueReopened,
    PullRequestCreated,
    Ignored,
}

pub open spec fn route_spec(kind: EventKind, title: Seq<char>) -> Route {
    match kind {
        EventKind::IssueOpened => if starts_with(title, marker()) {
            Route::IssueCreated
        } else {
            Route::Ignored
        },
        EventKind::IssueReopened => if starts_with(title, marker()) {
            Route::IssueReopened
        } else {
            Route::Ignored
        },
        EventKind::PullRequestOpened => Route::PullRequestCreated,
        EventKind::Other => Route::Ignored,
    }
}

/// Routes an event: issues whose title opens with the contribution marker
/// go to the issue flow, every opened pull request to the pull-request
/// flow, and everything else nowhere.
pub fn classify(kind: EventKind, title: &str) -> (r: Route)
    ensures
        r == route_spec(kind, title@),
{
    let t = chars_of(title);
    let m = chars_of("[Contribute]");
    assert(t@.subrange(0, t@.len() as int) =~= t@);
    let marked = matches_at(&t, 0, &m);
    match kind {
        EventKind::IssueOpened => if marked {
            Route::IssueCreated
        } else {
            Route::Ignored
        },
        EventKind::IssueReopened => if marked {
            Route::IssueReopened
        } else {
            Route::Ignored
        },
        EventKind::PullRequestOpened => Route::PullRequestCreated,
        EventKind::Other => Route::Ignored,
    }
}

/// The comment that acknowledges a merged contribution.
pub open spec fn thanks_text() -> Seq<char> {
    "Merged. Thank you for contribution!"@
}

/// The comment that hands a pull request to a maintainer.
pub open spec fn review_text() -> Seq<char> {
    "Sorry I cannot make sure your PR is safe to merge.\n@longfangsong PTAL."@
}

/// A step of the issue flow, for the caller to do.
pub enum IssueStep {
    /// Acquire the lock under this token, then report `LockHeld`.
    AcquireLock(u64),
    /// Report whether a file exists at this path of the repository.
    CheckExists(String),
    /// Write the file, commit and push it, then report `Pushed`.
    WriteAndPush { path: String, contents: String },
    /// Comment on the issue, then report `Commented`.
    Comment(String),
    /// Close the issue, then report `Closed`.
    CloseIssue,
    /// Nothing is left to do. The lock stays held.
    Finish,
}

pub enum IssueStepView {
    AcquireLock(u64),
    CheckExists(Seq<char>),
    WriteAndPush(Seq<char>, Seq<char>),
    Comment(Seq<char>),
    CloseIssue,
    Finish,
}

impl View for IssueStep {
    type V = IssueStepView;

    open spec fn view(&self) -> IssueStepView {
        match self {
            IssueStep::AcquireLock(t) => IssueStepView::AcquireLock(*t),
            IssueStep::CheckExists(p) => IssueStepView::CheckExists(p@),
            IssueStep::WriteAndPush { path, contents } => IssueStepView::WriteAndPush(path@, contents@),
            IssueStep::Comment(t) => IssueStepView::Comment(t@),
            IssueStep::CloseIssue => IssueStepView::CloseIssue,
            IssueStep::Finish => IssueStepView::Finish,
        }
    }
}

/// What the caller reports after a step of the issue flow.
#[derive(PartialEq, Eq, Structural, Debug, Clone, Copy)]
pub enum IssueEvent {
    LockHeld,
    Exists(bool),
    Pushed,
    Commented,
    Closed,
}

/// The step that the issue flow waits on.
#[derive(PartialEq, Eq, Structural, Debug, Clone, Copy)]
pub enum IssueStage {
    AwaitingLock,
    AwaitingExists,
    AwaitingPush,
    AwaitingComment,
    AwaitingClose,
    Finished,
}

/// The issue flow of one contribution.
pub struct IssueFlow {
    pub stage: IssueStage,
    pub token: u64,
    pub author: String,
    pub contribution: Contribution,
    /// The article's own file name, once the lock is held.
    pub filename: String,
    /// The path that the last step named.
    pub path: String,
    /// The stamped article, once it is written.
    pub contents: String,
}

/// The step that a stage asks for.
pub open spec fn issue_pending(f: IssueFlow) -> IssueStepView {
    match f.stage {
        IssueStage::AwaitingLock => IssueStepView::AcquireLock(f.token),
        IssueStage::AwaitingExists => IssueStepView::CheckExists(f.path@),
        IssueStage::AwaitingPush => IssueStepView::WriteAndPush(f.path@, f.contents@),
        IssueStage::AwaitingComment => IssueStepView::Comment(thanks_text()),
        IssueStage::AwaitingClose => IssueStepView::CloseIssue,
        IssueStage::Finished => IssueStepView::Finish,
    }
}

/// The article's name, path and contents stay as they were.
pub open spec fn issue_article_kept(a: IssueFlow, b: IssueFlow) -> bool {
    a.filename@ == b.filename@ && a.path@ == b.path@ && a.contents@ == b.contents@
}

/// The flow's fields that no step changes.
pub open spec fn issue_kept(a: IssueFlow, b: IssueFlow) -> bool {
    a.token == b.token && a.author@ == b.author@ && a.contribution@ == b.contribution@
}

impl IssueFlow {
    /// Reads the contribution of an issue and starts its flow, whose first
    /// step acquires the lock under `token`. An issue that is no
    /// contribution, or whose body cannot be read, starts nothing.
    pub fn start(title: &str, body: &str, author: &str, token: u64) -> (r: Result<(IssueFlow, IssueStep), ParseError>)
        ensures
            match r {
                Ok((f, s)) => parse_spec(title@, body@) == Ok::<ContributionView, ParseError>(
                    f.contribution@,
                ) && f.stage == IssueStage::AwaitingLock && f.token == token && f.author@ == author@
                    && s@ == IssueStepView::AcquireLock(token),
                Err(e) => parse_spec(title@, body@) == Err::<ContributionView, ParseError>(e),
            },
    {
        match parse_contribution(title, body) {
            Err(e) => Err(e),
            Ok(c) => Ok(
                (
                    IssueFlow {
                        stage: IssueStage::AwaitingLock,
                        token,
                        author: author.to_owned(),
                        contribution: c,
                        filename: String::new(),
                        path: String::new(),
                        contents: String::new(),
                    },
                    IssueStep::AcquireLock(token),
                ),
            ),
        }
    }

    fn pending(&self) -> (r: IssueStep)
        ensures
            r@ == issue_pending(*self),
    {
        match self.stage {
            IssueStage::AwaitingLock => IssueStep::AcquireLock(self.token),
            IssueStage::AwaitingExists => IssueStep::CheckExists(self.path.clone()),
            IssueStage::AwaitingPush => IssueStep::WriteAndPush {
                path: self.path.clone(),
                contents: self.contents.clone(),
            },
            IssueStage::AwaitingComment => IssueStep::Comment(
                "Merged. Thank you for contribution!".to_owned(),
            ),
            IssueStage::AwaitingClose => IssueStep::CloseIssue,
            IssueStage::Finished => IssueStep::Finish,
        }
    }

    /// Takes what the last step reported and returns the next step, with
    /// `timestamp` as the time of the last update of the article.
    ///
    /// Once the lock is held, the article's path is
    /// `data/<language>/<answer>/<slug>.md`; where that file exists, the
    /// article is written under a name disambiguated by the digest of its
    /// stamped contents. After the push, the issue is thanked and closed.
    /// An event that the stage does not wait for repeats the pending step.
    pub fn advance_with_time(&mut self, event: IssueEvent, timestamp: &str) -> (r: IssueStep)
        ensures
            advanced(*old(self), event, timestamp@, *final(self), r@),
    {
        match (self.stage, event) {
            (IssueStage::AwaitingLock, IssueEvent::LockHeld) => {
                let filename = article_filename(self.contribution.title.as_str());
                self.path = article_path(
                    self.contribution.language.as_str(),
                    self.contribution.answer.as_str(),
                    filename.as_str(),
                );
                self.filename = filename;
                self.stage = IssueStage::AwaitingExists;
            },
            (IssueStage::AwaitingExists, IssueEvent::Exists(e)) => {
                let contents = stamp_header(
                    self.contribution.header.as_str(),
                    self.contribution.content.as_str(),
                    self.author.as_str(),
                    timestamp,
                );
                let name = destination_filename(self.filename.as_str(), contents.as_str(), e);
                self.path = article_path(
                    self.contribution.language.as_str(),
                    self.contribution.answer.as_str(),
                    name.as_str(),
                );
                self.contents = contents;
                self.stage = IssueStage::AwaitingPush;
            },
            (IssueStage::AwaitingPush, IssueEvent::Pushed) => {
                self.stage = IssueStage::AwaitingComment;
            },
            (IssueStage::AwaitingComment, IssueEvent::Commented) => {
                self.stage = IssueStage::AwaitingClose;
            },
            (IssueStage::AwaitingClose, IssueEvent::Closed) => {
                self.stage = IssueStage::Finished;
            },
            _ => {},
        }
        self.pending()
    }

    /// As `advance_with_time`, with the current time in UTC as the time of
    /// the last update.
    pub fn advance(&mut self, event: IssueEvent) -> (r: IssueStep)
        ensures
            exists|t: Seq<char>|
                is_utc_timestamp(t) && #[trigger] advanced(*old(self), event, t, *final(self), r@),
    {
        let now = utc_now_rfc3339();
        self.advance_with_time(event, now.as_str())
    }
}

/// One step of the issue flow from `before` to `after` on `event`, with
/// `timestamp` as the time of the last update, and the step it asks for.
pub open spec fn advanced(
    before: IssueFlow,
    event: IssueEvent,
    timestamp: Seq<char>,
    after: IssueFlow,
    step: IssueStepView,
) -> bool {
    &&& issue_kept(before, after)
    &&& step == issue_pending(after)
    &&& match (before.stage, event) {
        (IssueStage::AwaitingLock, IssueEvent::LockHeld) => after.stage == IssueStage::AwaitingExists
            && after.filename@ == article_filename_spec(before.contribution.title@) && after.path@
            == article_path_spec(before.contribution.language@, before.contribution.answer@, after.filename@),
        (IssueStage::AwaitingExists, IssueEvent::Exists(e)) => after.stage == IssueStage::AwaitingPush
            && after.filename@ == before.filename@ && after.contents@ == stamped(
            before.contribution.header@,
            before.contribution.content@,
            before.author@,
            timestamp,
        ) && after.path@ == article_path_spec(
            before.contribution.language@,
            before.contribution.answer@,
            destination_spec(before.filename@, after.contents@, e),
        ),
        (IssueStage::AwaitingPush, IssueEvent::Pushed) => after.stage == IssueStage::AwaitingComment
            && issue_article_kept(before, after),
        (IssueStage::AwaitingComment, IssueEvent::Commented) => after.stage == IssueStage::AwaitingClose
            && issue_article_kept(before, after),
        (IssueStage::AwaitingClose, IssueEvent::Closed) => after.stage == IssueStage::Finished
            && issue_article_kept(before, after),
        _ => after.stage == before.stage && issue_article_kept(before, after),
    }
}

} // verus!

verus! {

/// A step of the pull-request flow, for the caller to do.
pub enum PrStep {
    /// Fetch the unified diff of the pull request and report `Diff`.
    FetchDiff,
    /// Acquire the lock under this token, then report `LockHeld`.
    AcquireLock(u64),
    /// Squash-merge the pull request, with its own title as the title and
    /// the message of the commit, then report `Merged`.
    Merge,
    /// Comment on the pull request, then report `Commented`.
    Comment(String),
    /// Nothing is left to do.
    Finish,
}

pub enum PrStepView {
    FetchDiff,
    AcquireLock(u64),
    Merge,
    Comment(Seq<char>),
    Finish,
}

impl View for PrStep {
    type V = PrStepView;

    open spec fn view(&self) -> PrStepView {
        match self {
            PrStep::FetchDiff => PrStepView::FetchDiff,
            PrStep::AcquireLock(t) => PrStepView::AcquireLock(*t),
            PrStep::Merge => PrStepView::Merge,
            PrStep::Comment(t) => PrStepView::Comment(t@),
            PrStep::Finish => PrStepView::Finish,
        }
    }
}

/// What the caller reports after a step of the pull-request flow.
pub enum PrEvent {
    Diff(String),
    LockHeld,
    Merged,
    Commented,
}

#[derive(PartialEq, Eq, Structural, Debug, Clone, Copy)]
pub enum PrStage {
    AwaitingDiff,
    AwaitingLock,
    AwaitingMerge,
    AwaitingComment,
    Finished,
}

/// The flow of one pull request.
pub struct PrFlow {
    pub stage: PrStage,
    pub token: u64,
    pub pr_id: u64,
}

pub open spec fn pr_pending(f: PrFlow) -> PrStepView {
    match f.stage {
        PrStage::AwaitingDiff => PrStepView::FetchDiff,
        PrStage::AwaitingLock => PrStepView::AcquireLock(f.token),
        PrStage::AwaitingMerge => PrStepView::Merge,
        PrStage::AwaitingComment => PrStepView::Comment(review_text()),
        PrStage::Finished => PrStepView::Finish,
    }
}

impl PrFlow {
    /// Starts the flow of a pull request: the first step fetches its diff.
    pub fn start(pr_id: u64, token: u64) -> (r: (PrFlow, PrStep))
        ensures
            r.0.stage == PrStage::AwaitingDiff,
            r.0.token == token,
            r.0.pr_id == pr_id,
            r.1@ == PrStepView::FetchDiff,
    {
        (PrFlow { stage: PrStage::AwaitingDiff, token, pr_id }, PrStep::FetchDiff)
    }

    fn pending(&self) -> (r: PrStep)
        ensures
            r@ == pr_pending(*self),
    {
        match self.stage {
            PrStage::AwaitingDiff => PrStep::FetchDiff,
            PrStage::AwaitingLock => PrStep::AcquireLock(self.token),
            PrStage::AwaitingMerge => PrStep::Merge,
            PrStage::AwaitingComment => PrStep::Comment(
                "Sorry I cannot make sure your PR is safe to merge.\n@longfangsong PTAL.".to_owned(),
            ),
            PrStage::Finished => PrStep::Finish,
        }
    }

    /// Takes what the last step reported and returns the next step. A pull
    /// request whose diff changes only markdown files under `data/`, and
    /// at least one, is merged once the lock is held; any other is handed
    /// to a maintainer with a comment, and takes no lock. An event that the
    /// stage does not wait for repeats the pending step.
    pub fn advance(&mut self, event: PrEvent) -> (r: PrStep)
        ensures
            final(self).token == old(self).token,
            final(self).pr_id == old(self).pr_id,
            r@ == pr_pending(*final(self)),
            match (old(self).stage, event) {
                (PrStage::AwaitingDiff, PrEvent::Diff(d)) => final(self).stage == if all_article_paths(
                    changed_files(d@),
                ) {
                    PrStage::AwaitingLock
                } else {
                    PrStage::AwaitingComment
                },
                (PrStage::AwaitingLock, PrEvent::LockHeld) => final(self).stage == PrStage::AwaitingMerge,
                (PrStage::AwaitingMerge, PrEvent::Merged) => final(self).stage == PrStage::Finished,
                (PrStage::AwaitingComment, PrEvent::Commented) => final(self).stage == PrStage::Finished,
                _ => final(self).stage == old(self).stage,
            },
    {
        match (self.stage, event) {
            (PrStage::AwaitingDiff, PrEvent::Diff(d)) => {
                if validate_pr_diff(d.as_str()) {
                    self.stage = PrStage::AwaitingLock;
                } else {
                    self.stage = PrStage::AwaitingComment;
                }
            },
            (PrStage::AwaitingLock, PrEvent::LockHeld) => {
                self.stage = PrStage::AwaitingMerge;
            },
            (PrStage::AwaitingMerge, PrEvent::Merged) => {
                self.stage = PrStage::Finished;
            },
            (PrStage::AwaitingComment, PrEvent::Commented) => {
                self.stage = PrStage::Finished;
            },
            _ => {},
        }
        self.pending()
    }
}

/// An issue event whose title lacks the contribution marker is routed
/// nowhere, and starting an issue flow on it fails before any step: no
/// lock is taken, nothing is written, commented or closed.
pub proof fn lemma_unmarked_issue_is_ignored(kind: EventKind, title: Seq<char>, body: Seq<char>)
    requires
        kind == EventKind::IssueOpened || kind == EventKind::IssueReopened,
        !starts_with(title, marker()),
    ensures
        route_spec(kind, title) == Route::Ignored,
        parse_spec(title, body) == Err::<ContributionView, ParseError>(ParseError::NotAContribution),
{
}

} // verus!
