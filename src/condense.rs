use vstd::prelude::*;
use crate::text::{
    word_len, is_white_spec, chars_of, is_word, join, join_range, lemma_words_are_words, lemma_words_join, split_words,
    string_of, words,
};

verus! {

/// Length of `s` up to its first line feed.
pub open spec fn line_len(s: Seq<char>) -> nat
    decreases s.len(),
{
    if s.len() == 0 || s[0] == '\n' {
        0
    } else {
        1 + line_len(s.drop_first())
    }
}

proof fn lemma_line_len(s: Seq<char>)
    ensures
        line_len(s) <= s.len(),
        line_len(s) < s.len() ==> s[line_len(s) as int] == '\n',
    decreases s.len(),
{
    if s.len() > 0 && s[0] != '\n' {
        lemma_line_len(s.drop_first());
        if line_len(s) < s.len() {
            assert(s[line_len(s) as int] == s.drop_first()[line_len(s) - 1]);
        }
    }
}

/// A line that ended in a line feed loses a carriage return before it.
pub open spec fn trim_cr(l: Seq<char>) -> Seq<char> {
    if l.len() > 0 && l.last() == '\r' {
        l.drop_last()
    } else {
        l
    }
}

/// The lines of `s`, as `str::lines` gives them: split at `\n`, a `\r` before
/// the `\n` removed, no empty line after a final `\n`.
pub open spec fn lines(s: Seq<char>) -> Seq<Seq<char>>
    decreases s.len(),
    via lines_decreases
{
    if s.len() == 0 {
        seq![]
    } else if line_len(s) == s.len() {
        seq![s]
    } else {
        seq![trim_cr(s.take(line_len(s) as int))] + lines(s.skip(line_len(s) + 1int))
    }
}

#[via_fn]
proof fn lines_decreases(s: Seq<char>) {
    lemma_line_len(s);
}

/// `m` occurs in `t` as a contiguous run.
pub open spec fn contains(t: Seq<char>, m: Seq<char>) -> bool {
    exists|i: int| 0 <= i && i + m.len() <= t.len() && #[trigger] t.subrange(i, i + m.len()) == m
}

/// The lines that survive fence stripping: a line holding the marker toggles
/// the fenced state and is dropped, and so is every line inside a fence.
pub open spec fn kept_lines(ls: Seq<Seq<char>>, m: Seq<char>, inside: bool) -> Seq<Seq<char>>
    decreases ls.len(),
{
    if ls.len() == 0 {
        seq![]
    } else if contains(ls[0], m) {
        kept_lines(ls.drop_first(), m, !inside)
    } else if inside {
        kept_lines(ls.drop_first(), m, true)
    } else {
        seq![ls[0]] + kept_lines(ls.drop_first(), m, false)
    }
}

/// Each line followed by a line feed.
pub open spec fn unlines(ls: Seq<Seq<char>>) -> Seq<char>
    decreases ls.len(),
{
    if ls.len() == 0 {
        seq![]
    } else {
        ls[0] + seq!['\n'] + unlines(ls.drop_first())
    }
}

/// `s` with its fenced regions removed, the kept lines each ending in `\n`.
pub open spec fn unfenced(s: Seq<char>, m: Seq<char>) -> Seq<char> {
    unlines(kept_lines(lines(s), m, false))
}

/// Number of head units kept of a budget: `floor(budget * num / den)`.
pub open spec fn head_count(budget: nat, num: nat, den: nat) -> nat {
    (budget * num / den) as nat
}

/// The units kept of an over-budget sequence: the first `h` and the last `budget - h`.
pub open spec fn head_tail(ws: Seq<Seq<char>>, budget: nat, h: nat) -> Seq<Seq<char>> {
    ws.take(h as int) + ws.skip(ws.len() - (budget - h))
}

/// The condensed form of `s`: fences removed; if the remaining units fit the
/// budget that text as it is, else the head and tail units joined by spaces.
pub open spec fn condensed(s: Seq<char>, m: Seq<char>, budget: nat, num: nat, den: nat) -> Seq<
    char,
> {
    let f = unfenced(s, m);
    let ws = words(f);
    if ws.len() <= budget {
        f
    } else {
        join(head_tail(ws, budget, head_count(budget, num, den)))
    }
}

/// The last `budget` units of `s` joined by spaces, or `s` as it is when it fits.
pub open spec fn tail_condensed(s: Seq<char>, budget: nat) -> Seq<char> {
    let ws = words(s);
    if ws.len() <= budget {
        s
    } else {
        join(ws.skip(ws.len() - budget))
    }
}

/// Whether `m` occurs in `t[lo..hi]`.
fn contains_in(t: &Vec<char>, lo: usize, hi: usize, m: &Vec<char>) -> (r: bool)
    requires
        lo <= hi <= t.len(),
    ensures
        r == contains(t@.subrange(lo as int, hi as int), m@),
{
    let ghost line = t@.subrange(lo as int, hi as int);
    let ml = m.len();
    if ml > hi - lo {
        proof {
            assert forall|i: int| 0 <= i && i + m@.len() <= line.len() implies #[trigger] line.subrange(
                i,
                i + m@.len(),
            ) != m@ by {}
        }
        return false;
    }
    let last = hi - lo - ml;
    let mut i: usize = 0;
    while i <= last
        invariant
            lo <= hi <= t.len(),
            ml == m.len(),
            last == hi - lo - ml,
            line == t@.subrange(lo as int, hi as int),
            forall|p: int| 0 <= p < i ==> #[trigger] line.subrange(p, p + ml) != m@,
        decreases last + 1 - i,
    {
        let mut j: usize = 0;
        while j < ml && t[lo + i + j] == m[j]
            invariant
                lo <= hi <= t.len(),
                ml == m.len(),
                i <= last,
                last == hi - lo - ml,
                j <= ml,
                line == t@.subrange(lo as int, hi as int),
                forall|q: int| 0 <= q < j ==> t@[lo + i + q] == m@[q],
            decreases ml - j,
        {
            j = j + 1;
        }
        if j == ml {
            assert(line.subrange(i as int, i + ml) =~= m@);
            return true;
        }
        assert(line.subrange(i as int, i + ml)[j as int] != m@[j as int]);
        i = i + 1;
    }
    proof {
        assert forall|p: int| 0 <= p && p + m@.len() <= line.len() implies #[trigger] line.subrange(
            p,
            p + m@.len(),
        ) != m@ by {
            assert(p < i);
        }
    }
    false
}

/// `s` with its fenced regions removed (see `unfenced`).
pub fn strip_fences(s: &Vec<char>, m: &Vec<char>) -> (r: Vec<char>)
    ensures
        r@ == unfenced(s@, m@),
{
    let n = s.len();
    let mut r: Vec<char> = Vec::new();
    let mut inside = false;
    let mut i: usize = 0;
    assert(s@.skip(0) =~= s@);
    assert(r@ + unfenced(s@, m@) =~= unfenced(s@, m@));
    while i < n
        invariant
            n == s@.len(),
            i <= n,
            unfenced(s@, m@) == r@ + unlines(kept_lines(lines(s@.skip(i as int)), m@, inside)),
        decreases n - i,
    {
        let ghost rest = s@.skip(i as int);
        let mut j: usize = i;
        while j < n && s[j] != '\n'
            invariant
                n == s@.len(),
                i <= j <= n,
                rest == s@.skip(i as int),
                line_len(rest) == (j - i) + line_len(s@.skip(j as int)),
            decreases n - j,
        {
            let ghost sj = s@.skip(j as int);
            assert(sj[0] == s@[j as int]);
            assert(sj.drop_first() =~= s@.skip(j + 1));
            j = j + 1;
        }
        proof {
            let sj = s@.skip(j as int);
            if j < n {
                assert(sj[0] == s@[j as int]);
            }
            assert(line_len(sj) == 0);
        }
        let mut end = j;
        if j < n && end > i && s[end - 1] == '\r' {
            end = end - 1;
        }
        let ghost line = s@.subrange(i as int, end as int);
        proof {
            if j == n {
                assert(rest =~= line);
                assert(lines(rest) == seq![line]);
            } else {
                assert(rest.take(j - i) =~= s@.subrange(i as int, j as int));
                assert(trim_cr(rest.take(j - i)) =~= line);
                assert(rest.skip(j - i + 1) =~= s@.skip(j + 1));
            }
        }
        let next: usize = if j < n {
            j + 1
        } else {
            n
        };
        proof {
            if j == n {
                assert(s@.skip(n as int) =~= Seq::<char>::empty());
                assert(lines(s@.skip(n as int)) =~= seq![]);
                assert(lines(rest).drop_first() =~= lines(s@.skip(next as int)));
            } else {
                assert(lines(rest).drop_first() =~= lines(s@.skip(next as int)));
            }
            assert(lines(rest)[0] == line);
        }
        if contains_in(s, i, end, m) {
            inside = !inside;
        } else if !inside {
            let ghost before = r@;
            let mut k: usize = i;
            while k < end
                invariant
                    i <= k <= end <= n,
                    n == s@.len(),
                    r@ == before + s@.subrange(i as int, k as int),
                decreases end - k,
            {
                r.push(s[k]);
                k = k + 1;
                assert(r@ =~= before + s@.subrange(i as int, k as int));
            }
            r.push('\n');
            let ghost tail = kept_lines(lines(s@.skip(next as int)), m@, false);
            assert(kept_lines(lines(rest), m@, false) =~= seq![line] + tail);
            assert(unlines(seq![line] + tail) =~= line + seq!['\n'] + unlines(tail)) by {
                assert((seq![line] + tail).drop_first() =~= tail);
            }
            assert(r@ =~= before + line + seq!['\n']);
        }
        i = next;
    }
    assert(s@.skip(n as int) =~= Seq::<char>::empty());
    assert(lines(s@.skip(n as int)) =~= seq![]);
    assert(r@ + seq![] =~= r@);
    r
}

/// `inp_str` with its fenced regions removed (see `unfenced`).
pub fn unfence(inp_str: &str, quote_mark: &str) -> (r: String)
    ensures
        r@ == unfenced(inp_str@, quote_mark@),
{
    let s = chars_of(inp_str);
    let m = chars_of(quote_mark);
    let body = strip_fences(&s, &m);
    string_of(&body)
}

/// Condenses a text for the classifier: drops every fenced region (lines
/// between two lines holding `marker`, and those lines themselves), then, if
/// more than `max_len` units remain, keeps the first
/// `floor(max_len * head_num / head_den)` units and enough of the last ones to
/// make `max_len`, joined by single spaces.
pub fn squeeze_fit_comment_texts(
    inp_str: &str,
    quote_mark: &str,
    max_len: usize,
    head_num: u32,
    head_den: u32,
) -> (r: String)
    requires
        0 < head_den,
        head_num <= head_den,
    ensures
        r@ == condensed(inp_str@, quote_mark@, max_len as nat, head_num as nat, head_den as nat),
{
    let s = chars_of(inp_str);
    let m = chars_of(quote_mark);
    let body = strip_fences(&s, &m);
    let ws = split_words(&body);
    let n = ws.len();
    if n <= max_len {
        return string_of(&body);
    }
    proof {
        assert(max_len as u128 * head_num as u128 <= 0xffff_ffff_ffff_ffff_u128 * 0xffff_ffff_u128)
            by (nonlinear_arith)
            requires
                max_len <= 0xffff_ffff_ffff_ffff_u128,
                head_num <= 0xffff_ffff_u128,
        ;
    }
    let prod: u128 = max_len as u128 * head_num as u128;
    proof {
        assert(max_len as u128 * head_num as u128 <= max_len as u128 * head_den as u128)
            by (nonlinear_arith)
            requires
                head_num <= head_den,
        ;
        assert(prod / (head_den as u128) <= max_len) by (nonlinear_arith)
            requires
                prod <= max_len as u128 * head_den as u128,
                head_den > 0,
        ;
    }
    let h = (prod / head_den as u128) as usize;
    let t = max_len - h;
    let ghost all = ws.deep_view();
    let head = join_range(&ws, 0, h);
    let tail = join_range(&ws, n - t, n);
    let mut out = head;
    proof {
        assert(all.subrange(0, h as int) =~= all.take(h as int));
        assert(all.subrange(n - t, n as int) =~= all.skip(n - t));
        lemma_join_concat(all.take(h as int), all.skip(n - t));
    }
    if h > 0 && t > 0 {
        out.push(' ');
    }
    let mut k: usize = 0;
    let ghost base = out@;
    while k < tail.len()
        invariant
            k <= tail.len(),
            out@ == base + tail@.take(k as int),
        decreases tail.len() - k,
    {
        out.push(tail[k]);
        k = k + 1;
        assert(out@ =~= base + tail@.take(k as int));
    }
    assert(tail@.take(tail.len() as int) =~= tail@);
    proof {
        if h == 0 {
            assert(all.take(0) =~= seq![]);
            assert(join(all.take(0)) =~= seq![]);
            assert(out@ =~= tail@);
        }
        if t == 0 {
            assert(all.skip(n as int) =~= seq![]);
            assert(tail@ =~= seq![]);
            assert(out@ =~= head@);
        }
    }
    string_of(&out)
}

/// Joining two runs of units joins their joins with one space between.
proof fn lemma_join_concat(a: Seq<Seq<char>>, b: Seq<Seq<char>>)
    ensures
        a.len() == 0 ==> join(a + b) == join(b),
        b.len() == 0 ==> join(a + b) == join(a),
        a.len() > 0 && b.len() > 0 ==> join(a + b) == join(a) + seq![' '] + join(b),
    decreases b.len(),
{
    if a.len() == 0 {
        assert(a + b =~= b);
    } else if b.len() == 0 {
        assert(a + b =~= a);
    } else if b.len() == 1 {
        assert((a + b).drop_last() =~= a);
        assert((a + b).last() == b[0]);
    } else {
        lemma_join_concat(a, b.drop_last());
        assert((a + b).drop_last() =~= a + b.drop_last());
        assert((a + b).last() == b.last());
        assert(join(a) + seq![' '] + join(b.drop_last()) + seq![' '] + b.last() =~= join(a) + seq![
            ' ',
        ] + (join(b.drop_last()) + seq![' '] + b.last()));
    }
}

/// Condenses a concatenation of comments: when it holds more than `max_len`
/// units, the oldest are dropped from the front and the last `max_len` units
/// are kept, joined by single spaces; otherwise the text is kept as it is.
pub fn squeeze_tail(inp_str: &str, max_len: usize) -> (r: String)
    ensures
        r@ == tail_condensed(inp_str@, max_len as nat),
{
    let s = chars_of(inp_str);
    let ws = split_words(&s);
    let n = ws.len();
    if n <= max_len {
        return string_of(&s);
    }
    let out = join_range(&ws, n - max_len, n);
    assert(ws.deep_view().subrange(n - max_len, n as int) =~= ws.deep_view().skip(n - max_len));
    string_of(&out)
}

proof fn lemma_head_count(budget: nat, num: nat, den: nat)
    requires
        0 < den,
        num <= den,
    ensures
        head_count(budget, num, den) <= budget,
{
    assert(budget * num <= budget * den) by (nonlinear_arith)
        requires
            num <= den,
    ;
    assert((budget * num) / den <= budget) by (nonlinear_arith)
        requires
            budget * num <= budget * den,
            0 < den,
    ;
}

/// Condensation bound: a condensed text never holds more units than the budget.
pub proof fn lemma_condensed_within_budget(s: Seq<char>, m: Seq<char>, budget: nat, num: nat, den: nat)
    requires
        0 < den,
        num <= den,
    ensures
        words(condensed(s, m, budget, num, den)).len() <= budget,
{
    let f = unfenced(s, m);
    let ws = words(f);
    if ws.len() > budget {
        lemma_condensed_units(s, m, budget, num, den);
    }
}

/// Over budget, the units of the condensed text are exactly the kept head and tail.
proof fn lemma_condensed_units(s: Seq<char>, m: Seq<char>, budget: nat, num: nat, den: nat)
    requires
        0 < den,
        num <= den,
        words(unfenced(s, m)).len() > budget,
    ensures
        words(condensed(s, m, budget, num, den)) == head_tail(
            words(unfenced(s, m)),
            budget,
            head_count(budget, num, den),
        ),
        head_tail(words(unfenced(s, m)), budget, head_count(budget, num, den)).len() == budget,
{
    let ws = words(unfenced(s, m));
    let h = head_count(budget, num, den);
    lemma_head_count(budget, num, den);
    lemma_words_are_words(unfenced(s, m));
    let sel = head_tail(ws, budget, h);
    assert forall|i: int| 0 <= i < sel.len() implies is_word(#[trigger] sel[i]) by {
        if i < h {
            assert(sel[i] == ws[i]);
        } else {
            assert(sel[i] == ws[ws.len() - (budget - h) + (i - h)]);
        }
    }
    lemma_words_join(sel);
}

/// Head/tail preservation: over budget, the condensed text's first
/// `head_count` units are the first units of the unfenced text, and its last
/// `budget - head_count` units are the last units of the unfenced text.
pub proof fn lemma_condensed_keeps_head_and_tail(
    s: Seq<char>,
    m: Seq<char>,
    budget: nat,
    num: nat,
    den: nat,
)
    requires
        0 < den,
        num <= den,
        words(unfenced(s, m)).len() > budget,
    ensures
        ({
            let ws = words(unfenced(s, m));
            let out = words(condensed(s, m, budget, num, den));
            let h = head_count(budget, num, den) as int;
            let t = budget - h;
            &&& out.len() == budget
            &&& out.take(h) == ws.take(h)
            &&& out.skip(out.len() - t) == ws.skip(ws.len() - t)
        }),
{
    lemma_head_count(budget, num, den);
    lemma_condensed_units(s, m, budget, num, den);
    let ws = words(unfenced(s, m));
    let out = words(condensed(s, m, budget, num, den));
    let h = head_count(budget, num, den) as int;
    let t = budget - h;
    assert(out.take(h) =~= ws.take(h));
    assert(out.skip(out.len() - t) =~= ws.skip(ws.len() - t));
}

/// Fence stripping: no kept line holds the marker.
pub proof fn lemma_kept_lines_hold_no_marker(ls: Seq<Seq<char>>, m: Seq<char>, inside: bool)
    ensures
        forall|i: int|
            0 <= i < kept_lines(ls, m, inside).len() ==> !contains(
                #[trigger] kept_lines(ls, m, inside)[i],
                m,
            ),
    decreases ls.len(),
{
    if ls.len() == 0 {
        assert(kept_lines(ls, m, inside).len() == 0);
    } else {
        let rest = ls.drop_first();
        if contains(ls[0], m) {
            lemma_kept_lines_hold_no_marker(rest, m, !inside);
            assert(kept_lines(ls, m, inside) == kept_lines(rest, m, !inside));
        } else if inside {
            lemma_kept_lines_hold_no_marker(rest, m, true);
            assert(kept_lines(ls, m, inside) == kept_lines(rest, m, true));
        } else {
            lemma_kept_lines_hold_no_marker(rest, m, false);
            let k = kept_lines(ls, m, inside);
            assert forall|i: int| 0 <= i < k.len() implies !contains(#[trigger] k[i], m) by {
                if i > 0 {
                    assert(k[i] == kept_lines(rest, m, false)[i - 1]);
                }
            }
        }
    }
}

/// Aggregate condensation keeps exactly the last `budget` units when over budget.
pub proof fn lemma_tail_condensed_units(s: Seq<char>, budget: nat)
    requires
        words(s).len() > budget,
    ensures
        words(tail_condensed(s, budget)) == words(s).skip(words(s).len() - budget),
{
    let ws = words(s);
    lemma_words_are_words(s);
    let sel = ws.skip(ws.len() - budget);
    assert forall|i: int| 0 <= i < sel.len() implies is_word(#[trigger] sel[i]) by {
        assert(sel[i] == ws[ws.len() - budget + i]);
    }
    lemma_words_join(sel);
}

/// Within budget, the condensed text is the unfenced text as it is: the kept
/// lines, each ending in a line feed.
pub proof fn lemma_condensed_within_budget_is_verbatim(
    s: Seq<char>,
    m: Seq<char>,
    budget: nat,
    num: nat,
    den: nat,
)
    requires
        words(unfenced(s, m)).len() <= budget,
    ensures
        condensed(s, m, budget, num, den) == unlines(kept_lines(lines(s), m, false)),
{
}

/// An occurrence inside a part of a text is an occurrence in the text.
proof fn lemma_contains_subrange(t: Seq<char>, lo: int, hi: int, m: Seq<char>)
    requires
        0 <= lo <= hi <= t.len(),
        contains(t.subrange(lo, hi), m),
    ensures
        contains(t, m),
{
    let u = t.subrange(lo, hi);
    let i = choose|i: int| 0 <= i && i + m.len() <= u.len() && #[trigger] u.subrange(i, i + m.len()) == m;
    assert(t.subrange(lo + i, lo + i + m.len()) =~= u.subrange(i, i + m.len()));
}

/// A marker without `sep` that occurs in `a + [sep] + b` occurs in `a` or in `b`.
proof fn lemma_contains_split(a: Seq<char>, sep: char, b: Seq<char>, m: Seq<char>)
    requires
        forall|j: int| 0 <= j < m.len() ==> m[j] != sep,
        contains(a + seq![sep] + b, m),
    ensures
        contains(a, m) || contains(b, m),
{
    let t = a + seq![sep] + b;
    let i = choose|i: int| 0 <= i && i + m.len() <= t.len() && #[trigger] t.subrange(i, i + m.len()) == m;
    if m.len() == 0 {
        let z: int = 0;
        assert(a.subrange(z, z + m.len()) =~= m);
        assert(contains(a, m));
    } else if i + m.len() <= a.len() {
        assert(a.subrange(i, i + m.len()) =~= t.subrange(i, i + m.len()));
        assert(contains(a, m));
    } else if i <= a.len() {
        assert(t.subrange(i, i + m.len())[a.len() - i] == t[a.len() as int]);
        assert(t[a.len() as int] == sep);
        assert(m[a.len() - i] == sep);
        assert(false);
    } else {
        let k = i - a.len() - 1;
        assert(b.subrange(k, k + m.len()) =~= t.subrange(i, i + m.len()));
        assert(contains(b, m));
    }
}

proof fn lemma_unlines_no_marker(ls: Seq<Seq<char>>, m: Seq<char>)
    requires
        m.len() > 0,
        forall|j: int| 0 <= j < m.len() ==> m[j] != '\n',
        forall|k: int| 0 <= k < ls.len() ==> !contains(#[trigger] ls[k], m),
    ensures
        !contains(unlines(ls), m),
    decreases ls.len(),
{
    if ls.len() == 0 {
        assert(unlines(ls).len() == 0);
    } else {
        let rest = ls.drop_first();
        assert forall|k: int| 0 <= k < rest.len() implies !contains(#[trigger] rest[k], m) by {
            assert(rest[k] == ls[k + 1]);
        }
        lemma_unlines_no_marker(rest, m);
        assert(!contains(ls[0], m));
        if contains(unlines(ls), m) {
            lemma_contains_split(ls[0], '\n', unlines(rest), m);
        }
    }
}

proof fn lemma_join_no_marker(ws: Seq<Seq<char>>, m: Seq<char>)
    requires
        m.len() > 0,
        forall|j: int| 0 <= j < m.len() ==> m[j] != ' ',
        forall|k: int| 0 <= k < ws.len() ==> !contains(#[trigger] ws[k], m),
    ensures
        !contains(join(ws), m),
    decreases ws.len(),
{
    if ws.len() == 0 {
        assert(join(ws).len() == 0);
    } else if ws.len() == 1 {
        assert(!contains(ws[0], m));
    } else {
        let init = ws.drop_last();
        assert forall|k: int| 0 <= k < init.len() implies !contains(#[trigger] init[k], m) by {
            assert(init[k] == ws[k]);
        }
        lemma_join_no_marker(init, m);
        assert(!contains(ws[ws.len() - 1], m));
        if contains(join(ws), m) {
            lemma_contains_split(join(init), ' ', ws.last(), m);
        }
    }
}

/// A marker absent from a text is absent from each of its units.
proof fn lemma_words_no_marker(s: Seq<char>, m: Seq<char>)
    requires
        !contains(s, m),
    ensures
        forall|k: int| 0 <= k < words(s).len() ==> !contains(#[trigger] words(s)[k], m),
    decreases s.len(),
{
    if s.len() == 0 {
        assert(words(s).len() == 0);
    } else if is_white_spec(s[0]) {
        assert(s.drop_first() =~= s.subrange(1, s.len() as int));
        if contains(s.drop_first(), m) {
            lemma_contains_subrange(s, 1, s.len() as int, m);
        }
        lemma_words_no_marker(s.drop_first(), m);
        assert(words(s) == words(s.drop_first()));
    } else {
        crate::text::lemma_word_len(s);
        let k = word_len(s) as int;
        assert(s.take(k) =~= s.subrange(0, k));
        assert(s.skip(k) =~= s.subrange(k, s.len() as int));
        if contains(s.take(k), m) {
            lemma_contains_subrange(s, 0, k, m);
        }
        if contains(s.skip(k), m) {
            lemma_contains_subrange(s, k, s.len() as int, m);
        }
        lemma_words_no_marker(s.skip(k), m);
        let ws = words(s);
        assert forall|j: int| 0 <= j < ws.len() implies !contains(#[trigger] ws[j], m) by {
            if j > 0 {
                assert(ws[j] == words(s.skip(k))[j - 1]);
            }
        }
    }
}

/// Fence stripping: a non-empty marker free of whitespace never appears in
/// the condensed text, within budget or over it.
pub proof fn lemma_condensed_has_no_marker(
    s: Seq<char>,
    m: Seq<char>,
    budget: nat,
    num: nat,
    den: nat,
)
    requires
        0 < den,
        num <= den,
        m.len() > 0,
        forall|j: int| 0 <= j < m.len() ==> !is_white_spec(#[trigger] m[j]),
    ensures
        !contains(condensed(s, m, budget, num, den), m),
{
    assert(is_white_spec('\n') && is_white_spec(' '));
    let kept = kept_lines(lines(s), m, false);
    lemma_kept_lines_hold_no_marker(lines(s), m, false);
    assert forall|j: int| 0 <= j < m.len() implies m[j] != '\n' && m[j] != ' ' by {
        assert(!is_white_spec(m[j]));
    }
    lemma_unlines_no_marker(kept, m);
    let f = unfenced(s, m);
    let ws = words(f);
    if ws.len() > budget {
        lemma_head_count(budget, num, den);
        let h = head_count(budget, num, den);
        let sel = head_tail(ws, budget, h);
        lemma_words_no_marker(f, m);
        assert forall|k: int| 0 <= k < sel.len() implies !contains(#[trigger] sel[k], m) by {
            if k < h {
                assert(sel[k] == ws[k]);
            } else {
                assert(sel[k] == ws[ws.len() - (budget - h) + (k - h)]);
            }
        }
        lemma_join_no_marker(sel, m);
    }
}

/// Whether the line scan is inside a fence after the lines `ls`, starting
/// from `inside`.
pub open spec fn inside_after(ls: Seq<Seq<char>>, m: Seq<char>, inside: bool) -> bool
    decreases ls.len(),
{
    if ls.len() == 0 {
        inside
    } else if contains(ls[0], m) {
        inside_after(ls.drop_first(), m, !inside)
    } else {
        inside_after(ls.drop_first(), m, inside)
    }
}

/// Inside a fence, lines without the marker are all dropped.
proof fn lemma_kept_lines_skip_fenced(b: Seq<Seq<char>>, r: Seq<Seq<char>>, m: Seq<char>)
    requires
        forall|k: int| 0 <= k < b.len() ==> !contains(#[trigger] b[k], m),
    ensures
        kept_lines(b + r, m, true) == kept_lines(r, m, true),
    decreases b.len(),
{
    if b.len() == 0 {
        assert(b + r =~= r);
    } else {
        let rest = b.drop_first();
        assert forall|k: int| 0 <= k < rest.len() implies !contains(#[trigger] rest[k], m) by {
            assert(rest[k] == b[k + 1]);
        }
        assert((b + r)[0] == b[0]);
        assert(!contains(b[0], m));
        assert((b + r).drop_first() =~= rest + r);
        lemma_kept_lines_skip_fenced(rest, r, m);
    }
}

/// Fence stripping: a pair of marker lines opened outside a fence, and every
/// line between them, leave no trace in the kept lines.
pub proof fn lemma_fence_pair_leaves_no_trace(
    a: Seq<Seq<char>>,
    p: Seq<char>,
    b: Seq<Seq<char>>,
    q: Seq<char>,
    c: Seq<Seq<char>>,
    m: Seq<char>,
    inside: bool,
)
    requires
        !inside_after(a, m, inside),
        contains(p, m),
        contains(q, m),
        forall|k: int| 0 <= k < b.len() ==> !contains(#[trigger] b[k], m),
    ensures
        kept_lines(a + seq![p] + b + seq![q] + c, m, inside) == kept_lines(a + c, m, inside),
    decreases a.len(),
{
    let whole = a + seq![p] + b + seq![q] + c;
    if a.len() == 0 {
        assert(whole[0] == p);
        assert(whole.drop_first() =~= b + (seq![q] + c));
        lemma_kept_lines_skip_fenced(b, seq![q] + c, m);
        assert((seq![q] + c)[0] == q);
        assert((seq![q] + c).drop_first() =~= c);
        assert(a + c =~= c);
    } else {
        assert(whole[0] == a[0]);
        assert((a + c)[0] == a[0]);
        assert(whole.drop_first() =~= a.drop_first() + seq![p] + b + seq![q] + c);
        assert((a + c).drop_first() =~= a.drop_first() + c);
        if contains(a[0], m) {
            lemma_fence_pair_leaves_no_trace(a.drop_first(), p, b, q, c, m, !inside);
        } else {
            lemma_fence_pair_leaves_no_trace(a.drop_first(), p, b, q, c, m, inside);
        }
    }
}

} // verus!
