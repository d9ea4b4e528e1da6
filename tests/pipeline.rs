use sentiment_alert::classify::{is_negative_reply, join_labels, session_id};
use sentiment_alert::event::{filter_event, is_of_interest, CommentAction, IssueAction, IssueRecord, RepoEvent};
use sentiment_alert::ledger::AlertLedger;
use sentiment_alert::pipeline::{Config, Outcome, Run, Step};

fn issue_42() -> IssueRecord {
    IssueRecord {
        number: 42,
        title: "Crash on startup".to_string(),
        body: Some("The app crashes every time I open it today.".to_string()),
        url: "https://github.com/acme/app/issues/42".to_string(),
        author: "octocat".to_string(),
        labels: vec!["bug".to_string(), "urgent".to_string()],
        comment_count: 1,
    }
}

fn opened(issue: IssueRecord) -> RepoEvent {
    RepoEvent::Issue { action: IssueAction::Opened, issue }
}

#[test]
fn closed_issue_is_filtered_out() {
    let e = RepoEvent::Issue { action: IssueAction::Closed, issue: issue_42() };
    assert!(filter_event(e).is_none());
}

#[test]
fn opened_issue_passes_the_filter() {
    let r = filter_event(opened(issue_42()));
    assert_eq!(r.map(|i| i.number), Some(42));
}

#[test]
fn deleted_comment_is_filtered_out() {
    let e = RepoEvent::IssueComment { action: CommentAction::Deleted, issue: issue_42() };
    assert!(filter_event(e).is_none());
}

#[test]
fn created_comment_yields_parent_issue() {
    let e = RepoEvent::IssueComment { action: CommentAction::Created, issue: issue_42() };
    let r = filter_event(e).unwrap();
    assert_eq!(r.number, 42);
    assert_eq!(r.title, "Crash on startup");
}

#[test]
fn other_events_are_ignored() {
    assert!(filter_event(RepoEvent::Other).is_none());
    let r = Run::start(RepoEvent::Other, AlertLedger::new(), Config::standard());
    assert_eq!(r.err(), Some(Outcome::FilteredOut));
}

#[test]
fn negative_reply_detection_ignores_ascii_case() {
    assert!(is_negative_reply("{'choice': 'yes', 'confidence': 0.9}"));
    assert!(is_negative_reply("YES"));
    assert!(is_negative_reply("Yes."));
    assert!(!is_negative_reply("{'choice': 'no', 'confidence': 0.8}"));
    assert!(!is_negative_reply("ye"));
    assert!(!is_negative_reply(""));
}

#[test]
fn session_is_keyed_by_issue_number() {
    assert_eq!(session_id(42), "ISSUE#42");
    assert_eq!(session_id(0), "ISSUE#0");
    assert_eq!(session_id(u64::MAX), "ISSUE#18446744073709551615");
}

#[test]
fn labels_are_joined_with_commas() {
    assert_eq!(join_labels(&vec![]), "");
    assert_eq!(join_labels(&vec!["bug".to_string()]), "bug");
    assert_eq!(join_labels(&vec!["bug".to_string(), "ui".to_string()]), "bug, ui");
}

#[test]
fn ledger_load_and_record() {
    let mut l = AlertLedger::load(None);
    assert!(!l.contains(7));
    l.record(7);
    assert!(l.contains(7));
    let l2 = AlertLedger::load(Some(vec![1, 2, 2, 3]));
    assert!(l2.contains(2) && l2.contains(3) && !l2.contains(4));
    assert_eq!(l2.ids().len(), 3);
}

#[test]
fn end_to_end_negative_issue_is_alerted_once() {
    let body = "one two three four five six seven eight nine ten";
    let mut issue = issue_42();
    issue.body = Some(body.to_string());
    let mut run = Run::start(opened(issue), AlertLedger::new(), Config::standard()).ok().unwrap();
    assert_eq!(run.issue_number(), 42);
    run.on_comments(&vec!["This is unacceptable, totally broken".to_string()]);
    let q = &run.request().question;
    assert!(q.contains("'Crash on startup'"));
    assert!(q.contains("'bug, urgent'"));
    assert!(q.contains(&format!("'{}\n'", body)));
    assert!(q.contains("'This is unacceptable, totally broken\n'"));
    assert_eq!(run.request().session, "ISSUE#42");
    let step = run.on_reply(Some("{'choice': 'yes', 'confidence': 0.9}".to_string()));
    match step {
        Step::Alert(m) => {
            assert!(m.contains("Crash on startup"));
            assert!(m.contains("https://github.com/acme/app/issues/42"));
            assert_eq!(
                m,
                "It appears that this is an urgent matter. Please take immediate action. Crash on startup by octocat\nhttps://github.com/acme/app/issues/42"
            );
        },
        _ => panic!("expected an alert"),
    }
    assert!(run.ledger().contains(42));
}

#[test]
fn rerun_for_alerted_issue_stops_at_ledger() {
    let mut ledger = AlertLedger::new();
    ledger.record(42);
    let r = Run::start(opened(issue_42()), ledger, Config::standard());
    assert_eq!(r.err(), Some(Outcome::AlreadyAlerted));
    let mut again = AlertLedger::new();
    again.record(42);
    let e = RepoEvent::IssueComment { action: CommentAction::Edited, issue: issue_42() };
    assert_eq!(Run::start(e, again, Config::standard()).err(), Some(Outcome::AlreadyAlerted));
}

#[test]
fn positive_reply_is_not_alerted() {
    let mut run = Run::start(opened(issue_42()), AlertLedger::new(), Config::standard()).ok().unwrap();
    run.on_comments(&vec![]);
    let step = run.on_reply(Some("{'choice': 'no', 'confidence': 0.7}".to_string()));
    assert!(matches!(step, Step::Skip(Outcome::NotNegative)));
    assert!(!run.ledger().contains(42));
}

#[test]
fn failed_calls_are_retried_then_given_up() {
    let mut run = Run::start(opened(issue_42()), AlertLedger::new(), Config::standard()).ok().unwrap();
    run.on_comments(&vec![]);
    assert!(matches!(run.on_reply(None), Step::Retry));
    assert!(matches!(run.on_reply(None), Step::Retry));
    assert!(matches!(run.on_reply(None), Step::Skip(Outcome::ClassificationFailed)));
    assert!(!run.ledger().contains(42));
}

#[test]
fn retry_then_success_alerts() {
    let mut run = Run::start(opened(issue_42()), AlertLedger::new(), Config::standard()).ok().unwrap();
    run.on_comments(&vec![]);
    assert!(matches!(run.on_reply(None), Step::Retry));
    assert!(matches!(run.on_reply(Some("Yes".to_string())), Step::Alert(_)));
    assert!(run.ledger().contains(42));
}

#[test]
fn missing_body_is_empty() {
    let mut issue = issue_42();
    issue.body = None;
    let mut run = Run::start(opened(issue), AlertLedger::new(), Config::standard()).ok().unwrap();
    run.on_comments(&vec![]);
    assert!(run.request().question.contains("body text: ''."));
    assert!(run.request().question.contains("comments: ''."));
}

fn comments_part(q: &str) -> &str {
    let start = q.find("comments: '").unwrap() + "comments: '".len();
    let end = q.find("'. Based on this context").unwrap();
    &q[start..end]
}

#[test]
fn long_comment_thread_keeps_newest_units() {
    let comments: Vec<String> = (0..3)
        .map(|c| (0..1000).map(|i| format!("c{}w{}", c, i)).collect::<Vec<_>>().join(" "))
        .collect();
    let mut run = Run::start(opened(issue_42()), AlertLedger::new(), Config::standard()).ok().unwrap();
    run.on_comments(&comments);
    let all: Vec<String> = comments.iter().flat_map(|c| c.split_whitespace().map(|w| w.to_string())).collect();
    assert_eq!(all.len(), 3000);
    assert_eq!(comments_part(&run.request().question), all[500..].join(" "));
}

#[test]
fn single_long_comment_keeps_its_last_units() {
    let words: Vec<String> = (0..3000).map(|i| format!("w{}", i)).collect();
    let mut run = Run::start(opened(issue_42()), AlertLedger::new(), Config::standard()).ok().unwrap();
    run.on_comments(&vec![words.join(" ")]);
    assert_eq!(comments_part(&run.request().question), words[500..].join(" "));
}

#[test]
fn comments_are_unfenced_and_kept_apart() {
    let mut run = Run::start(opened(issue_42()), AlertLedger::new(), Config::standard()).ok().unwrap();
    run.on_comments(&vec![
        "first\n```\nstack trace\n```".to_string(),
        "second".to_string(),
    ]);
    assert_eq!(comments_part(&run.request().question), "first\nsecond\n");
}

#[test]
fn interest_check_matches_the_filter() {
    assert!(is_of_interest(&opened(issue_42())));
    assert!(!is_of_interest(&RepoEvent::Issue { action: IssueAction::Closed, issue: issue_42() }));
    assert!(!is_of_interest(&RepoEvent::IssueComment {
        action: CommentAction::Deleted,
        issue: issue_42()
    }));
    assert!(is_of_interest(&RepoEvent::IssueComment {
        action: CommentAction::Created,
        issue: issue_42()
    }));
    assert!(!is_of_interest(&RepoEvent::Other));
}

#[test]
fn answer_format_block_is_indented() {
    let mut run = Run::start(opened(issue_42()), AlertLedger::new(), Config::standard()).ok().unwrap();
    run.on_comments(&vec![]);
    assert!(run.request().question.ends_with(
        "nothing else:\n        {\n            'choice': 'yes or no',\n            'confidence': 'confidence'\n        }"
    ));
}
