use vstd::prelude::*;
use crate::text::{chars_of, string_of};

verus! {

/// The reply holds `yes` in any ASCII case at position `i`.
pub open spec fn yes_at(t: Seq<char>, i: int) -> bool {
    &&& 0 <= i
    &&& i + 3 <= t.len()
    &&& (t[i] == 'y' || t[i] == 'Y')
    &&& (t[i + 1] == 'e' || t[i + 1] == 'E')
    &&& (t[i + 2] == 's' || t[i + 2] == 'S')
}

/// Decision rule: a reply counts as negative when, ASCII-lowercased, it contains `yes`.
pub open spec fn is_negative(choice: Seq<char>) -> bool {
    exists|i: int| #[trigger] yes_at(choice, i)
}

/// Whether a classifier reply counts as a negative-sentiment judgement.
pub fn is_negative_reply(choice: &str) -> (r: bool)
    ensures
        r == is_negative(choice@),
{
    let t = chars_of(choice);
    let n = t.len();
    if n < 3 {
        return false;
    }
    let last = n - 3;
    let mut i: usize = 0;
    while i <= last
        invariant
            n == t@.len(),
            last + 3 == n,
            t@ == choice@,
            forall|p: int| 0 <= p < i ==> !#[trigger] yes_at(t@, p),
        decreases last + 1 - i,
    {
        if (t[i] == 'y' || t[i] == 'Y') && (t[i + 1] == 'e' || t[i + 1] == 'E') && (t[i + 2]
            == 's' || t[i + 2] == 'S') {
            assert(yes_at(t@, i as int));
            return true;
        }
        i = i + 1;
    }
    assert forall|p: int| !#[trigger] yes_at(t@, p) by {
        if 0 <= p && p + 3 <= n {
            assert(p < i);
        }
    }
    false
}

pub open spec fn digit_char(d: nat) -> char {
    if d == 0 {
        '0'
    } else if d == 1 {
        '1'
    } else if d == 2 {
        '2'
    } else if d == 3 {
        '3'
    } else if d == 4 {
        '4'
    } else if d == 5 {
        '5'
    } else if d == 6 {
        '6'
    } else if d == 7 {
        '7'
    } else if d == 8 {
        '8'
    } else {
        '9'
    }
}

/// The decimal digits of `n`, without leading zeros.
pub open spec fn decimal(n: nat) -> Seq<char>
    decreases n,
{
    if n < 10 {
        seq![digit_char(n)]
    } else {
        decimal(n / 10).push(digit_char(n % 10))
    }
}

fn digit(d: u64) -> (c: char)
    requires
        d < 10,
    ensures
        c == digit_char(d as nat),
{
    if d == 0 {
        '0'
    } else if d == 1 {
        '1'
    } else if d == 2 {
        '2'
    } else if d == 3 {
        '3'
    } else if d == 4 {
        '4'
    } else if d == 5 {
        '5'
    } else if d == 6 {
        '6'
    } else if d == 7 {
        '7'
    } else if d == 8 {
        '8'
    } else {
        '9'
    }
}

fn push_decimal(n: u64, out: &mut Vec<char>)
    ensures
        final(out)@ == old(out)@ + decimal(n as nat),
    decreases n,
{
    if n >= 10 {
        push_decimal(n / 10, out);
    }
    out.push(digit(n % 10));
    assert(out@ =~= old(out)@ + decimal(n as nat));
}

/// The conversation key of an issue: `ISSUE#` and its number.
pub open spec fn session_text(n: nat) -> Seq<char> {
    "ISSUE#"@ + decimal(n)
}

/// The stable conversation key for the classifier exchanges of one issue.
pub fn session_id(number: u64) -> (r: String)
    ensures
        r@ == session_text(number as nat),
{
    let mut v = chars_of("ISSUE#");
    push_decimal(number, &mut v);
    string_of(&v)
}

/// The labels joined by `, `.
pub open spec fn labels_text(ls: Seq<Seq<char>>) -> Seq<char>
    decreases ls.len(),
{
    if ls.len() == 0 {
        seq![]
    } else if ls.len() == 1 {
        ls[0]
    } else {
        labels_text(ls.drop_last()) + ", "@ + ls.last()
    }
}

/// The labels of an issue as one text, separated by `, `.
pub fn join_labels(labels: &Vec<String>) -> (r: String)
    ensures
        r@ == labels_text(labels.deep_view()),
{
    let mut r = String::new();
    let mut k: usize = 0;
    while k < labels.len()
        invariant
            k <= labels.len(),
            r@ == labels_text(labels.deep_view().take(k as int)),
        decreases labels.len() - k,
    {
        let ghost next = labels.deep_view().take(k + 1);
        assert(next.drop_last() =~= labels.deep_view().take(k as int));
        if k > 0 {
            r.append(", ");
        }
        r.append(labels[k].as_str());
        assert(r@ =~= labels_text(next));
        k = k + 1;
    }
    assert(labels.deep_view().take(labels.len() as int) =~= labels.deep_view());
    r
}

/// The system role given to the classifier.
pub open spec fn system_text() -> Seq<char> {
    "You are an AI co-owner of a GitHub repository, monitoring for issues where participants express strong negative sentiment. Your task is to analyze the conversation context based on the issue's title, labels, body text, and comments."@
}

pub fn system_prompt() -> (r: String)
    ensures
        r@ == system_text(),
{
    let mut r = String::new();
    r.append(
        "You are an AI co-owner of a GitHub repository, monitoring for issues where participants express strong negative sentiment. Your task is to analyze the conversation context based on the issue's title, labels, body text, and comments.",
    );
    r
}

/// The user message: the issue's title, labels, condensed body and condensed
/// comments, and the shape the answer must take.
pub open spec fn question_text(
    title: Seq<char>,
    labels: Seq<char>,
    body: Seq<char>,
    comments: Seq<char>,
) -> Seq<char> {
    "An issue titled '"@ + title + "', labeled as '"@ + labels
        + "', carries the following body text: '"@ + body
        + "'. The discussion thread includes these comments: '"@ + comments
        + "'. Based on this context, evaluate whether the overall sentiment of this issue is significantly negative. If your confidence in this judgment is greater than 50%, respond in JSON format, a JSON literal only, nothing else:\n        {\n            'choice': 'yes or no',\n            'confidence': 'confidence'\n        }"@
}

pub fn question(title: &str, labels: &str, body: &str, comments: &str) -> (r: String)
    ensures
        r@ == question_text(title@, labels@, body@, comments@),
{
    let mut r = String::new();
    r.append("An issue titled '");
    r.append(title);
    r.append("', labeled as '");
    r.append(labels);
    r.append("', carries the following body text: '");
    r.append(body);
    r.append("'. The discussion thread includes these comments: '");
    r.append(comments);
    r.append(
        "'. Based on this context, evaluate whether the overall sentiment of this issue is significantly negative. If your confidence in this judgment is greater than 50%, respond in JSON format, a JSON literal only, nothing else:\n        {\n            'choice': 'yes or no',\n            'confidence': 'confidence'\n        }",
    );
    r
}

/// The alert sent to the channel: an urgency note, the title, the author and the link.
pub open spec fn alert_text(title: Seq<char>, author: Seq<char>, url: Seq<char>) -> Seq<char> {
    "It appears that this is an urgent matter. Please take immediate action. "@ + title + " by "@
        + author + "\n"@ + url
}

pub fn alert_message(title: &str, author: &str, url: &str) -> (r: String)
    ensures
        r@ == alert_text(title@, author@, url@),
{
    let mut r = String::new();
    r.append("It appears that this is an urgent matter. Please take immediate action. ");
    r.append(title);
    r.append(" by ");
    r.append(author);
    r.append("\n");
    r.append(url);
    r
}

} // verus!
