use vstd::prelude::*;

verus! {

/// An issue as the pipeline sees it, taken from an inbound event.
pub struct IssueRecord {
    pub number: u64,
    pub title: String,
    pub body: Option<String>,
    pub url: String,
    pub author: String,
    pub labels: Vec<String>,
    pub comment_count: u64,
}

/// What happened to an issue.
#[derive(Clone, Copy, Debug, PartialEq, Eq, Structural)]
pub enum IssueAction {
    Opened,
    Closed,
    Reopened,
    Edited,
    Assigned,
    Unassigned,
    Labeled,
    Unlabeled,
    /// Any other change (locked, pinned, transferred, ...).
    Other,
}

/// What happened to a comment on an issue.
#[derive(Clone, Copy, Debug, PartialEq, Eq, Structural)]
pub enum CommentAction {
    Created,
    Deleted,
    Edited,
}

/// An inbound repository event.
#[allow(inconsistent_fields)]
pub enum RepoEvent {
    /// A change of an issue itself.
    Issue { action: IssueAction, issue: IssueRecord },
    /// A change of a comment, carrying the issue it belongs to.
    IssueComment { action: CommentAction, issue: IssueRecord },
    /// Any other kind of event.
    Other,
}

/// The issue an event asks to analyse: none for a closed issue, a deleted
/// comment or another kind of event; otherwise the (parent) issue.
pub open spec fn issue_of_interest(e: RepoEvent) -> Option<IssueRecord> {
    match e {
        RepoEvent::Issue { action, issue } => if action == IssueAction::Closed {
            None
        } else {
            Some(issue)
        },
        RepoEvent::IssueComment { action, issue } => if action == CommentAction::Deleted {
            None
        } else {
            Some(issue)
        },
        RepoEvent::Other => None,
    }
}

/// Whether an event asks for analysis, without taking it apart.
pub fn is_of_interest(e: &RepoEvent) -> (r: bool)
    ensures
        r == issue_of_interest(*e) is Some,
{
    match e {
        RepoEvent::Issue { action, .. } => *action != IssueAction::Closed,
        RepoEvent::IssueComment { action, .. } => *action != CommentAction::Deleted,
        RepoEvent::Other => false,
    }
}

/// Maps an inbound event to the issue it asks to analyse, if any.
pub fn filter_event(e: RepoEvent) -> (r: Option<IssueRecord>)
    ensures
        r == issue_of_interest(e),
{
    match e {
        RepoEvent::Issue { action, issue } => {
            if action == IssueAction::Closed {
                None
            } else {
                Some(issue)
            }
        },
        RepoEvent::IssueComment { action, issue } => {
            if action == CommentAction::Deleted {
                None
            } else {
                Some(issue)
            }
        },
        RepoEvent::Other => None,
    }
}

} // verus!
