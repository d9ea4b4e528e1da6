use vstd::prelude::*;
use vstd::std_specs::iter::IteratorSpec;

verus! {

/// The Unicode `White_Space` property, the set that `char::is_whitespace`
/// and `str::split_whitespace` use.
pub open spec fn is_white_spec(c: char) -> bool {
    let u = c as u32;
    ||| (0x09 <= u && u <= 0x0d)
    ||| u == 0x20
    ||| u == 0x85
    ||| u == 0xa0
    ||| u == 0x1680
    ||| (0x2000 <= u && u <= 0x200a)
    ||| u == 0x2028
    ||| u == 0x2029
    ||| u == 0x202f
    ||| u == 0x205f
    ||| u == 0x3000
}

pub fn is_white(c: char) -> (r: bool)
    ensures
        r == is_white_spec(c),
{
    let u = c as u32;
    (0x09 <= u && u <= 0x0d) || u == 0x20 || u == 0x85 || u == 0xa0 || u == 0x1680 || (0x2000
        <= u && u <= 0x200a) || u == 0x2028 || u == 0x2029 || u == 0x202f || u == 0x205f || u
        == 0x3000
}

/// Length of the run of non-whitespace characters at the front of `s`.
pub open spec fn word_len(s: Seq<char>) -> nat
    decreases s.len(),
{
    if s.len() == 0 || is_white_spec(s[0]) {
        0
    } else {
        1 + word_len(s.drop_first())
    }
}

/// The whitespace-delimited units of `s`, in order, as `split_whitespace` gives them.
pub open spec fn words(s: Seq<char>) -> Seq<Seq<char>>
    decreases s.len(),
    via words_decreases
{
    if s.len() == 0 {
        seq![]
    } else if is_white_spec(s[0]) {
        words(s.drop_first())
    } else {
        seq![s.take(word_len(s) as int)] + words(s.skip(word_len(s) as int))
    }
}

#[via_fn]
proof fn words_decreases(s: Seq<char>) {
    if s.len() > 0 && !is_white_spec(s[0]) {
        lemma_word_len(s);
    }
}

/// A unit: non-empty and free of whitespace.
pub open spec fn is_word(w: Seq<char>) -> bool {
    w.len() > 0 && forall|i: int| 0 <= i < w.len() ==> !is_white_spec(#[trigger] w[i])
}

/// The units joined by single spaces.
pub open spec fn join(ws: Seq<Seq<char>>) -> Seq<char>
    decreases ws.len(),
{
    if ws.len() == 0 {
        seq![]
    } else if ws.len() == 1 {
        ws[0]
    } else {
        join(ws.drop_last()) + seq![' '] + ws.last()
    }
}

pub proof fn lemma_word_len(s: Seq<char>)
    ensures
        word_len(s) <= s.len(),
        forall|i: int| 0 <= i < word_len(s) ==> !is_white_spec(#[trigger] s[i]),
        word_len(s) < s.len() ==> is_white_spec(s[word_len(s) as int]),
    decreases s.len(),
{
    if s.len() > 0 && !is_white_spec(s[0]) {
        lemma_word_len(s.drop_first());
        assert forall|i: int| 0 <= i < word_len(s) implies !is_white_spec(#[trigger] s[i]) by {
            if i > 0 {
                assert(s[i] == s.drop_first()[i - 1]);
            }
        }
    }
}

/// The front unit of `a + r` is that of `a` when `a`'s own unit ends inside `a`
/// or `r` starts with whitespace.
proof fn lemma_word_len_append(a: Seq<char>, r: Seq<char>)
    requires
        word_len(a) < a.len() || (r.len() > 0 && is_white_spec(r[0])),
    ensures
        word_len(a + r) == word_len(a),
    decreases a.len(),
{
    if a.len() == 0 {
        assert((a + r)[0] == r[0]);
    } else if is_white_spec(a[0]) {
        assert((a + r)[0] == a[0]);
    } else {
        assert((a + r)[0] == a[0]);
        assert((a + r).drop_first() =~= a.drop_first() + r);
        lemma_word_len_append(a.drop_first(), r);
    }
}

/// Whitespace between two texts separates their units.
pub proof fn lemma_words_split(a: Seq<char>, b: Seq<char>)
    ensures
        words(a + seq![' '] + b) == words(a) + words(b),
    decreases a.len(),
{
    let s = a + seq![' '] + b;
    assert(is_white_spec(' '));
    if a.len() == 0 {
        assert(s[0] == ' ');
        assert(s.drop_first() =~= b);
        assert(words(a) =~= seq![]);
        assert(words(a) + words(b) =~= words(b));
    } else if is_white_spec(a[0]) {
        assert(s[0] == a[0]);
        assert(s.drop_first() =~= a.drop_first() + seq![' '] + b);
        lemma_words_split(a.drop_first(), b);
    } else {
        assert(s[0] == a[0]);
        lemma_word_len(a);
        let k = word_len(a) as int;
        assert(s =~= a + (seq![' '] + b));
        lemma_word_len_append(a, seq![' '] + b);
        assert(s.take(k) =~= a.take(k));
        assert(s.skip(k) =~= a.skip(k) + seq![' '] + b);
        lemma_words_split(a.skip(k), b);
        assert(words(a + seq![' '] + b) =~= seq![a.take(k)] + (words(a.skip(k)) + words(b)));
        assert(words(a) + words(b) =~= seq![a.take(k)] + (words(a.skip(k)) + words(b)));
    }
}

/// A unit on its own splits into itself.
pub proof fn lemma_words_of_word(w: Seq<char>)
    requires
        is_word(w),
    ensures
        words(w) == seq![w],
{
    assert(w[0] == w[0]);
    lemma_word_len_full(w);
    assert(w.take(w.len() as int) =~= w);
    assert(w.skip(w.len() as int) =~= Seq::<char>::empty());
    assert(words(Seq::<char>::empty()) =~= seq![]);
    assert(words(w) =~= seq![w]);
}

proof fn lemma_word_len_full(w: Seq<char>)
    requires
        forall|i: int| 0 <= i < w.len() ==> !is_white_spec(#[trigger] w[i]),
    ensures
        word_len(w) == w.len(),
    decreases w.len(),
{
    if w.len() > 0 {
        assert(!is_white_spec(w[0]));
        assert forall|i: int| 0 <= i < w.drop_first().len() implies !is_white_spec(
            #[trigger] w.drop_first()[i],
        ) by {
            assert(w.drop_first()[i] == w[i + 1]);
        }
        lemma_word_len_full(w.drop_first());
    }
}

/// Splitting a join of units gives the units back.
pub proof fn lemma_words_join(ws: Seq<Seq<char>>)
    requires
        forall|i: int| 0 <= i < ws.len() ==> is_word(#[trigger] ws[i]),
    ensures
        words(join(ws)) == ws,
    decreases ws.len(),
{
    if ws.len() == 0 {
        assert(words(Seq::<char>::empty()) =~= seq![]);
        assert(join(ws) =~= Seq::<char>::empty());
        assert(ws =~= seq![]);
    } else if ws.len() == 1 {
        assert(is_word(ws[0]));
        lemma_words_of_word(ws[0]);
        assert(ws =~= seq![ws[0]]);
    } else {
        let init = ws.drop_last();
        assert forall|i: int| 0 <= i < init.len() implies is_word(#[trigger] init[i]) by {
            assert(init[i] == ws[i]);
        }
        lemma_words_join(init);
        assert(is_word(ws[ws.len() - 1]));
        lemma_words_of_word(ws.last());
        lemma_words_split(join(init), ws.last());
        assert(ws =~= init + seq![ws.last()]);
    }
}

/// Every unit of a text is a unit: non-empty and free of whitespace.
pub proof fn lemma_words_are_words(s: Seq<char>)
    ensures
        forall|i: int| 0 <= i < words(s).len() ==> is_word(#[trigger] words(s)[i]),
    decreases s.len(),
{
    if s.len() == 0 {
        assert(words(s).len() == 0);
    } else {
        if is_white_spec(s[0]) {
            lemma_words_are_words(s.drop_first());
            assert(words(s) == words(s.drop_first()));
        } else {
            lemma_word_len(s);
            let k = word_len(s) as int;
            lemma_words_are_words(s.skip(k));
            let ws = words(s);
            assert forall|i: int| 0 <= i < ws.len() implies is_word(#[trigger] ws[i]) by {
                if i == 0 {
                    assert(ws[0] == s.take(k));
                    assert forall|j: int| 0 <= j < s.take(k).len() implies !is_white_spec(
                        #[trigger] s.take(k)[j],
                    ) by {
                        assert(s.take(k)[j] == s[j]);
                    }
                } else {
                    assert(ws[i] == words(s.skip(k))[i - 1]);
                }
            }
        }
    }
}


/// The characters of `s`, in order.
pub(crate) fn chars_of(s: &str) -> (r: Vec<char>)
    ensures
        r@ == s@,
{
    broadcast use vstd::string::group_string_axioms;

    let mut it = s.chars();
    let mut r: Vec<char> = Vec::new();
    loop
        invariant
            r@ + it.remaining() == s@,
            it.decrease() is Some,
        ensures
            r@ == s@,
        decreases it.decrease()->0,
    {
        let ghost before = it.remaining();
        match it.next() {
            Some(c) => {
                r.push(c);
                assert(r@ + it.remaining() =~= s@);
            },
            None => {
                assert(before.len() == 0);
                assert(r@ =~= s@);
                break;
            },
        }
    }
    r
}

/// Relies on `String: FromIterator<char>`: the characters of `v`, in order.
#[verifier::external_body]
pub(crate) fn string_of(v: &Vec<char>) -> (r: String)
    ensures
        r@ == v@,
{
    v.iter().collect()
}

/// The whitespace-delimited units of `s`.
pub fn split_words(s: &Vec<char>) -> (r: Vec<Vec<char>>)
    ensures
        r.deep_view() == words(s@),
{
    let n = s.len();
    let mut r: Vec<Vec<char>> = Vec::new();
    let mut i: usize = 0;
    assert(s@.skip(0) =~= s@);
    while i < n
        invariant
            n == s@.len(),
            i <= n,
            words(s@) == r.deep_view() + words(s@.skip(i as int)),
        decreases n - i,
    {
        let ghost rest = s@.skip(i as int);
        if is_white(s[i]) {
            assert(rest[0] == s@[i as int]);
            assert(rest.drop_first() =~= s@.skip(i + 1));
            i = i + 1;
        } else {
            let mut w: Vec<char> = Vec::new();
            let mut j: usize = i;
            while j < n && !is_white(s[j])
                invariant
                    n == s@.len(),
                    i <= j <= n,
                    rest == s@.skip(i as int),
                    w@ == s@.subrange(i as int, j as int),
                    word_len(rest) == (j - i) + word_len(s@.skip(j as int)),
                decreases n - j,
            {
                let ghost sj = s@.skip(j as int);
                assert(sj[0] == s@[j as int]);
                assert(sj.drop_first() =~= s@.skip(j + 1));
                w.push(s[j]);
                j = j + 1;
                assert(w@ =~= s@.subrange(i as int, j as int));
            }
            proof {
                let sj = s@.skip(j as int);
                if j < n {
                    assert(sj[0] == s@[j as int]);
                }
                assert(word_len(sj) == 0);
                assert(rest[0] == s@[i as int]);
                assert(rest.take(j - i) =~= w@);
                assert(rest.skip(j - i) =~= sj);
            }
            let ghost before = r.deep_view();
            assert(w.deep_view() =~= w@);
            r.push(w);
            assert(r.deep_view() =~= before.push(s@.subrange(i as int, j as int)));
            i = j;
        }
    }
    assert(s@.skip(n as int) =~= Seq::<char>::empty());
    assert(words(s@.skip(n as int)) =~= seq![]);
    assert(r.deep_view() + seq![] =~= r.deep_view());
    r
}

/// `ws[lo..hi]` joined by single spaces.
pub fn join_range(ws: &Vec<Vec<char>>, lo: usize, hi: usize) -> (r: Vec<char>)
    requires
        lo <= hi <= ws.len(),
    ensures
        r@ == join(ws.deep_view().subrange(lo as int, hi as int)),
{
    let mut r: Vec<char> = Vec::new();
    let mut k: usize = lo;
    assert(ws.deep_view().subrange(lo as int, lo as int) =~= seq![]);
    while k < hi
        invariant
            lo <= k <= hi <= ws.len(),
            r@ == join(ws.deep_view().subrange(lo as int, k as int)),
        decreases hi - k,
    {
        let ghost prev = ws.deep_view().subrange(lo as int, k as int);
        let ghost next = ws.deep_view().subrange(lo as int, k + 1);
        assert(next.drop_last() =~= prev);
        assert(ws[k as int].deep_view() =~= ws[k as int]@);
        assert(next.last() == ws[k as int]@);
        if k > lo {
            r.push(' ');
        }
        let w = &ws[k];
        let mut j: usize = 0;
        let ghost base = r@;
        while j < w.len()
            invariant
                j <= w.len(),
                r@ == base + w@.take(j as int),
            decreases w.len() - j,
        {
            r.push(w[j]);
            j = j + 1;
            assert(r@ =~= base + w@.take(j as int));
        }
        assert(w@.take(w.len() as int) =~= w@);
        if k == lo {
            assert(base =~= seq![]);
            assert(r@ =~= w@);
        } else {
            assert(base == join(prev) + seq![' ']);
            assert(r@ =~= join(prev) + seq![' '] + w@);
        }
        k = k + 1;
    }
    r
}

} // verus!
