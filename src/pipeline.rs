use vstd::prelude::*;
use crate::classify::{
    alert_message, alert_text, is_negative, is_negative_reply, join_labels, labels_text,
    question, question_text, session_id, session_text, system_prompt, system_text,
};
use crate::condense::{
    condensed, squeeze_fit_comment_texts, squeeze_tail, tail_condensed, unfence, unfenced,
};
use crate::event::{filter_event, issue_of_interest, IssueRecord, RepoEvent};
use crate::ledger::AlertLedger;

verus! {

/// Tunable limits of one pipeline run.
#[derive(Clone, Copy, Debug)]
pub struct Config {
    /// Unit budget of the condensed issue body.
    pub unit_budget: usize,
    /// The share of the budget kept from the front, as `head_num / head_den`.
    pub head_num: u32,
    pub head_den: u32,
    /// Unit budget of all comments together; the oldest units go first.
    pub comments_budget: usize,
    /// How many classifier calls one run may make.
    pub max_attempts: u32,
}

impl Config {
    pub open spec fn valid(self) -> bool {
        &&& 0 < self.head_den
        &&& self.head_num <= self.head_den
        &&& 0 < self.max_attempts
    }

    /// The usual limits: 500 units with three fifths from the front, 2500
    /// units of comments, three classifier calls.
    pub fn standard() -> (r: Config)
        ensures
            r.valid(),
            r.unit_budget == 500,
            r.head_num == 3,
            r.head_den == 5,
            r.comments_budget == 2500,
            r.max_attempts == 3,
    {
        Config {
            unit_budget: 500,
            head_num: 3,
            head_den: 5,
            comments_budget: 2500,
            max_attempts: 3,
        }
    }
}

/// One call to the classifier.
pub struct ClassifyRequest {
    /// Stable across the attempts of one run, so that they form one exchange.
    pub session: String,
    pub system: String,
    pub question: String,
}

/// Why a run ended without an alert.
#[derive(Clone, Copy, Debug, PartialEq, Eq, Structural)]
pub enum Outcome {
    FilteredOut,
    AlreadyAlerted,
    NotNegative,
    ClassificationFailed,
}

/// Where a run stands.
#[derive(Clone, Copy, Debug, PartialEq, Eq, Structural)]
pub enum Stage {
    AwaitComments,
    AwaitReply,
    Finished,
}

/// What the driver does after a classifier reply.
pub enum Step {
    /// Send the same request again.
    Retry,
    /// Stop without an alert.
    Skip(Outcome),
    /// The issue is now in the ledger: persist the ledger, then send this message.
    Alert(String),
}

/// The fence marker of code and quoted blocks.
pub open spec fn fence() -> Seq<char> {
    "```"@
}

pub open spec fn body_of(i: IssueRecord) -> Seq<char> {
    match i.body {
        Some(b) => b@,
        None => Seq::<char>::empty(),
    }
}

/// The issue body as the classifier sees it.
pub open spec fn condensed_body(i: IssueRecord, c: Config) -> Seq<char> {
    condensed(body_of(i), fence(), c.unit_budget as nat, c.head_num as nat, c.head_den as nat)
}

/// The comments with their fenced regions removed, concatenated in order;
/// every kept line, and so every comment, ends in a line feed.
pub open spec fn each_unfenced(bodies: Seq<Seq<char>>) -> Seq<char>
    decreases bodies.len(),
{
    if bodies.len() == 0 {
        seq![]
    } else {
        each_unfenced(bodies.drop_last()) + unfenced(bodies.last(), fence())
    }
}

/// The comments as the classifier sees them: fences removed, joined, and the
/// oldest units dropped from the front beyond the thread budget.
pub open spec fn comments_view(bodies: Seq<Seq<char>>, c: Config) -> Seq<char> {
    tail_condensed(each_unfenced(bodies), c.comments_budget as nat)
}

/// Where a run ends before any outside call, if it does: at the filter or
/// at the ledger check.
pub open spec fn start_outcome(e: RepoEvent, ledger: Set<u64>) -> Option<Outcome> {
    match issue_of_interest(e) {
        None => Some(Outcome::FilteredOut),
        Some(i) => if ledger.contains(i.number) {
            Some(Outcome::AlreadyAlerted)
        } else {
            None
        },
    }
}

/// One invocation of the pipeline for one event.
pub struct Run {
    config: Config,
    issue: IssueRecord,
    body: String,
    request: ClassifyRequest,
    attempts: u32,
    stage: Stage,
    ledger: AlertLedger,
}

impl Run {
    pub closed spec fn config_spec(&self) -> Config {
        self.config
    }

    pub closed spec fn issue_spec(&self) -> IssueRecord {
        self.issue
    }

    pub closed spec fn body_spec(&self) -> Seq<char> {
        self.body@
    }

    pub closed spec fn request_spec(&self) -> ClassifyRequest {
        self.request
    }

    pub closed spec fn attempts_spec(&self) -> u32 {
        self.attempts
    }

    pub closed spec fn stage_spec(&self) -> Stage {
        self.stage
    }

    pub closed spec fn ledger_spec(&self) -> Set<u64> {
        self.ledger@
    }

    pub closed spec fn wf(&self) -> bool {
        &&& self.config.valid()
        &&& self.attempts <= self.config.max_attempts
    }

    /// Starts a run: filters the event and checks the ledger. On success the
    /// issue body is condensed and the run waits for the issue's comments.
    pub fn start(event: RepoEvent, ledger: AlertLedger, config: Config) -> (r: Result<
        Run,
        Outcome,
    >)
        requires
            config.valid(),
        ensures
            match start_outcome(event, ledger@) {
                Some(o) => r == Err::<Run, Outcome>(o),
                None => r matches Ok(run) && {
                    &&& run.wf()
                    &&& run.issue_spec() == issue_of_interest(event)->0
                    &&& run.config_spec() == config
                    &&& run.body_spec() == condensed_body(run.issue_spec(), config)
                    &&& run.ledger_spec() == ledger@
                    &&& run.stage_spec() == Stage::AwaitComments
                    &&& run.attempts_spec() == 0
                },
            },
    {
        let issue = match filter_event(event) {
            Some(i) => i,
            None => {
                return Err(Outcome::FilteredOut);
            },
        };
        if ledger.contains(issue.number) {
            return Err(Outcome::AlreadyAlerted);
        }
        proof {
            reveal_strlit("");
        }
        let body = match &issue.body {
            Some(b) => squeeze_fit_comment_texts(
                b.as_str(),
                "```",
                config.unit_budget,
                config.head_num,
                config.head_den,
            ),
            None => squeeze_fit_comment_texts(
                "",
                "```",
                config.unit_budget,
                config.head_num,
                config.head_den,
            ),
        };
        proof {
            if issue.body is None {
                assert(""@ =~= Seq::<char>::empty());
            }
        }
        Ok(
            Run {
                config,
                issue,
                body,
                request: ClassifyRequest {
                    session: String::new(),
                    system: String::new(),
                    question: String::new(),
                },
                attempts: 0,
                stage: Stage::AwaitComments,
                ledger,
            },
        )
    }

    /// The number of the issue under analysis, whose comments the driver fetches.
    pub fn issue_number(&self) -> (r: u64)
        ensures
            r == self.issue_spec().number,
    {
        self.issue.number
    }

    /// Takes the comment bodies (none when listing them failed), strips
    /// their fences, joins them, keeps the newest units within the thread
    /// budget, and prepares the classifier request.
    pub fn on_comments(&mut self, bodies: &Vec<String>)
        requires
            old(self).wf(),
            old(self).stage_spec() == Stage::AwaitComments,
        ensures
            final(self).wf(),
            final(self).stage_spec() == Stage::AwaitReply,
            final(self).attempts_spec() == 1,
            final(self).config_spec() == old(self).config_spec(),
            final(self).issue_spec() == old(self).issue_spec(),
            final(self).body_spec() == old(self).body_spec(),
            final(self).ledger_spec() == old(self).ledger_spec(),
            final(self).request_spec().session@ == session_text(
                old(self).issue_spec().number as nat,
            ),
            final(self).request_spec().system@ == system_text(),
            final(self).request_spec().question@ == question_text(
                old(self).issue_spec().title@,
                labels_text(old(self).issue_spec().labels.deep_view()),
                old(self).body_spec(),
                comments_view(bodies.deep_view(), old(self).config_spec()),
            ),
    {
        let c = self.config;
        let mut all = String::new();
        let mut k: usize = 0;
        while k < bodies.len()
            invariant
                k <= bodies.len(),
                c.valid(),
                all@ == each_unfenced(bodies.deep_view().take(k as int)),
            decreases bodies.len() - k,
        {
            let piece = unfence(bodies[k].as_str(), "```");
            all.append(piece.as_str());
            proof {
                let next = bodies.deep_view().take(k + 1);
                assert(next.drop_last() =~= bodies.deep_view().take(k as int));
                assert(next.last() == bodies[k as int]@);
            }
            k = k + 1;
        }
        assert(bodies.deep_view().take(bodies.len() as int) =~= bodies.deep_view());
        let comments = squeeze_tail(all.as_str(), c.comments_budget);
        let labels = join_labels(&self.issue.labels);
        let q = question(self.issue.title.as_str(), labels.as_str(), self.body.as_str(), comments.as_str());
        self.request = ClassifyRequest {
            session: session_id(self.issue.number),
            system: system_prompt(),
            question: q,
        };
        self.attempts = 1;
        self.stage = Stage::AwaitReply;
    }

    /// The request for the classifier.
    pub fn request(&self) -> (r: &ClassifyRequest)
        ensures
            r == self.request_spec(),
    {
        &self.request
    }

    /// Takes the classifier's reply: its choice text, or none when the call
    /// failed. A negative judgement records the issue in the ledger and asks
    /// for an alert; a failed call is retried while attempts are left.
    pub fn on_reply(&mut self, reply: Option<String>) -> (r: Step)
        requires
            old(self).wf(),
            old(self).stage_spec() == Stage::AwaitReply,
        ensures
            final(self).wf(),
            final(self).config_spec() == old(self).config_spec(),
            final(self).issue_spec() == old(self).issue_spec(),
            final(self).body_spec() == old(self).body_spec(),
            final(self).request_spec() == old(self).request_spec(),
            match reply {
                Some(c) => if is_negative(c@) {
                    &&& r matches Step::Alert(m) && m@ == alert_text(
                        old(self).issue_spec().title@,
                        old(self).issue_spec().author@,
                        old(self).issue_spec().url@,
                    )
                    &&& final(self).ledger_spec() == old(self).ledger_spec().insert(
                        old(self).issue_spec().number,
                    )
                    &&& final(self).stage_spec() == Stage::Finished
                } else {
                    &&& r matches Step::Skip(o) && o == Outcome::NotNegative
                    &&& final(self).ledger_spec() == old(self).ledger_spec()
                    &&& final(self).stage_spec() == Stage::Finished
                },
                None => if old(self).attempts_spec() < old(self).config_spec().max_attempts {
                    &&& r is Retry
                    &&& final(self).attempts_spec() == old(self).attempts_spec() + 1
                    &&& final(self).ledger_spec() == old(self).ledger_spec()
                    &&& final(self).stage_spec() == Stage::AwaitReply
                } else {
                    &&& r matches Step::Skip(o) && o == Outcome::ClassificationFailed
                    &&& final(self).ledger_spec() == old(self).ledger_spec()
                    &&& final(self).stage_spec() == Stage::Finished
                },
            },
    {
        match reply {
            Some(c) => {
                self.stage = Stage::Finished;
                if is_negative_reply(c.as_str()) {
                    self.ledger.record(self.issue.number);
                    Step::Alert(
                        alert_message(
                            self.issue.title.as_str(),
                            self.issue.author.as_str(),
                            self.issue.url.as_str(),
                        ),
                    )
                } else {
                    Step::Skip(Outcome::NotNegative)
                }
            },
            None => {
                if self.attempts < self.config.max_attempts {
                    self.attempts = self.attempts + 1;
                    Step::Retry
                } else {
                    self.stage = Stage::Finished;
                    Step::Skip(Outcome::ClassificationFailed)
                }
            },
        }
    }

    /// The ledger, to persist after an alert.
    pub fn ledger(&self) -> (r: &AlertLedger)
        ensures
            r@ == self.ledger_spec(),
    {
        &self.ledger
    }
}

/// Idempotence: a run for an issue that the ledger already holds stops at the
/// ledger check, before the classifier or the notifier.
pub proof fn lemma_known_issue_stops(e: RepoEvent, ledger: Set<u64>)
    requires
        issue_of_interest(e) is Some,
        ledger.contains(issue_of_interest(e)->0.number),
    ensures
        start_outcome(e, ledger) == Some(Outcome::AlreadyAlerted),
{
}

/// Idempotence across runs: once an alert recorded issue `n`, every later
/// event about issue `n` stops at the ledger check or earlier.
pub proof fn lemma_alerted_issue_never_rechecked(e: RepoEvent, ledger: Set<u64>, n: u64)
    requires
        issue_of_interest(e) is Some ==> issue_of_interest(e)->0.number == n,
    ensures
        start_outcome(e, ledger.insert(n)) is Some,
{
}

} // verus!
