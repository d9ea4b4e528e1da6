use sentiment_alert::condense::{squeeze_fit_comment_texts, squeeze_tail};

fn numbered_words(from: usize, to: usize) -> Vec<String> {
    (from..to).map(|i| format!("w{}", i)).collect()
}

#[test]
fn under_budget_text_is_kept_line_by_line() {
    let r = squeeze_fit_comment_texts("hello  world\nsecond line", "```", 500, 3, 5);
    assert_eq!(r, "hello  world\nsecond line\n");
}

#[test]
fn empty_input_gives_empty_output() {
    assert_eq!(squeeze_fit_comment_texts("", "```", 500, 3, 5), "");
    assert_eq!(squeeze_tail("", 10), "");
}

#[test]
fn fenced_block_and_marker_lines_are_dropped() {
    let text = "before\n```rust\nlet x = 1;\n```\nafter";
    let r = squeeze_fit_comment_texts(text, "```", 500, 3, 5);
    assert_eq!(r, "before\nafter\n");
}

#[test]
fn unmatched_fence_suppresses_the_rest() {
    let text = "keep\n```\nhidden one\nhidden two";
    let r = squeeze_fit_comment_texts(text, "```", 500, 3, 5);
    assert_eq!(r, "keep\n");
}

#[test]
fn crlf_line_endings_are_removed() {
    let r = squeeze_fit_comment_texts("a\r\nb\r", "```", 500, 3, 5);
    assert_eq!(r, "a\nb\r\n");
}

#[test]
fn over_budget_keeps_head_and_tail() {
    let text = numbered_words(0, 10).join(" ");
    let r = squeeze_fit_comment_texts(&text, "```", 5, 3, 5);
    assert_eq!(r, "w0 w1 w2 w8 w9");
}

#[test]
fn condensed_output_stays_within_budget() {
    let text = numbered_words(0, 1200).join("\n");
    let r = squeeze_fit_comment_texts(&text, "```", 500, 3, 5);
    let units: Vec<&str> = r.split_whitespace().collect();
    assert_eq!(units.len(), 500);
    assert_eq!(units[0], "w0");
    assert_eq!(units[299], "w299");
    assert_eq!(units[300], "w1000");
    assert_eq!(units[499], "w1199");
}

#[test]
fn head_share_of_zero_keeps_only_the_tail() {
    let text = numbered_words(0, 6).join(" ");
    let r = squeeze_fit_comment_texts(&text, "```", 2, 0, 5);
    assert_eq!(r, "w4 w5");
}

#[test]
fn head_share_of_one_keeps_only_the_head() {
    let text = numbered_words(0, 6).join(" ");
    let r = squeeze_fit_comment_texts(&text, "```", 2, 5, 5);
    assert_eq!(r, "w0 w1");
}

#[test]
fn fences_are_removed_before_counting() {
    let text = "a b\n```\nc d e f g h\n```\ni";
    let r = squeeze_fit_comment_texts(text, "```", 3, 3, 5);
    assert_eq!(r, "a b\ni\n");
}

#[test]
fn unicode_whitespace_separates_units() {
    let text = "one\u{00A0}two\u{3000}three four";
    let r = squeeze_fit_comment_texts(text, "```", 2, 1, 2);
    assert_eq!(r, "one four");
}

#[test]
fn aggregate_budget_keeps_last_units() {
    let words = numbered_words(0, 3000);
    let text = words.join(" ");
    let r = squeeze_tail(&text, 2500);
    assert_eq!(r, words[500..].join(" "));
}

#[test]
fn aggregate_budget_leaves_small_text_alone() {
    assert_eq!(squeeze_tail("a  b\nc\n", 3), "a  b\nc\n");
}
