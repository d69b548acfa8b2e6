//! Pass 1: the character classifier. Maps each character of the input to a
//! coarse class and merges runs of greedy classes into single spans, covering
//! the input exactly once, left to right.

use vstd::prelude::*;
use vstd::string::StrSliceExecFns;

use crate::spans::{concat_texts, lemma_concat_texts_push};
use crate::tokens::{classify, is_greedy_class, LevelOneToken, Sequence, SpanView};

verus! {

/// Length of the run of characters of class `t` that starts at position `i`.
pub open spec fn run_len(s: Seq<char>, i: int, t: LevelOneToken) -> nat
    decreases s.len() - i,
{
    if i < 0 || i >= s.len() || classify(s[i]) != t {
        0
    } else {
        1 + run_len(s, i + 1, t)
    }
}

pub proof fn lemma_run_len_bound(s: Seq<char>, i: int, t: LevelOneToken)
    requires
        0 <= i <= s.len(),
    ensures
        run_len(s, i, t) <= s.len() - i,
    decreases s.len() - i,
{
    if i < s.len() && classify(s[i]) == t {
        lemma_run_len_bound(s, i + 1, t);
    }
}

pub proof fn lemma_run_len_chars(s: Seq<char>, i: int, t: LevelOneToken)
    requires
        0 <= i <= s.len(),
    ensures
        forall|j: int| i <= j < i + run_len(s, i, t) ==> 0 <= j < s.len() && classify(s[j]) == t,
    decreases s.len() - i,
{
    if i < s.len() && classify(s[i]) == t {
        lemma_run_len_chars(s, i + 1, t);
    }
}

/// A run is exactly the interval whose characters all have class `t` and
/// whose end is the input's end or a character of another class.
pub proof fn lemma_run_len_interval(s: Seq<char>, i: int, j: int, t: LevelOneToken)
    requires
        0 <= i <= j <= s.len(),
        forall|k: int| i <= k < j ==> classify(s[k]) == t,
        j == s.len() || classify(s[j]) != t,
    ensures
        run_len(s, i, t) == j - i,
    decreases j - i,
{
    if i < j {
        lemma_run_len_interval(s, i + 1, j, t);
    }
}

/// Number of characters covered by the pass-1 span that starts at `i`.
pub open spec fn span1_len(s: Seq<char>, i: int) -> nat {
    if is_greedy_class(classify(s[i])) {
        run_len(s, i, classify(s[i]))
    } else {
        1
    }
}

/// The pass-1 spans of `s` from position `i` on.
pub open spec fn scan1_from(s: Seq<char>, i: int) -> Seq<SpanView<LevelOneToken>>
    decreases s.len() - i,
{
    if i < 0 || i >= s.len() {
        Seq::empty()
    } else {
        proof {
            lemma_run_len_bound(s, i, classify(s[i]));
        }
        let n = span1_len(s, i) as int;
        seq![SpanView { token: classify(s[i]), text: s.subrange(i, i + n) }] + scan1_from(
            s,
            i + n,
        )
    }
}

/// The pass-1 spans of the whole input.
pub open spec fn scan1(s: Seq<char>) -> Seq<SpanView<LevelOneToken>> {
    scan1_from(s, 0)
}

/// Concatenating the pass-1 spans' texts gives back the input: losslessness
/// of pass 1.
pub proof fn lemma_scan1_lossless(s: Seq<char>, i: int)
    requires
        0 <= i <= s.len(),
    ensures
        concat_texts(scan1_from(s, i)) == s.subrange(i, s.len() as int),
    decreases s.len() - i,
{
    if i >= s.len() {
        assert(concat_texts(scan1_from(s, i)) =~= s.subrange(i, s.len() as int));
    } else {
        lemma_run_len_bound(s, i, classify(s[i]));
        let n = span1_len(s, i) as int;
        lemma_scan1_lossless(s, i + n);
        let head = SpanView { token: classify(s[i]), text: s.subrange(i, i + n) };
        assert(scan1_from(s, i) == seq![head] + scan1_from(s, i + n));
        crate::spans::lemma_concat_texts_app(seq![head], scan1_from(s, i + n));
        crate::spans::lemma_concat_texts_single(head);
        assert(s.subrange(i, i + n) + s.subrange(i + n, s.len() as int) =~= s.subrange(
            i,
            s.len() as int,
        ));
    }
}

/// A pass-1 span is non-empty and all its characters share its class.
pub open spec fn wf_span1(span: SpanView<LevelOneToken>) -> bool {
    &&& span.text.len() > 0
    &&& forall|j: int| 0 <= j < span.text.len() ==> classify(span.text[j]) == span.token
}

pub proof fn lemma_scan1_wf(s: Seq<char>, i: int)
    requires
        0 <= i <= s.len(),
    ensures
        forall|k: int|
            0 <= k < scan1_from(s, i).len() ==> #[trigger] wf_span1(scan1_from(s, i)[k]),
    decreases s.len() - i,
{
    if i < s.len() {
        let t = classify(s[i]);
        lemma_run_len_bound(s, i, t);
        let n = span1_len(s, i) as int;
        lemma_scan1_wf(s, i + n);
        let head = SpanView { token: t, text: s.subrange(i, i + n) };
        if is_greedy_class(t) {
            lemma_run_len_chars(s, i, t);
        }
        assert(wf_span1(head));
        assert(scan1_from(s, i) == seq![head] + scan1_from(s, i + n));
        assert(forall|k: int|
            0 < k < scan1_from(s, i).len() ==> scan1_from(s, i)[k] == scan1_from(s, i + n)[k - 1]);
    }
}

/// Scans the input into pass-1 spans: at each position, classify the current
/// character; a greedy class absorbs the following characters of the same
/// class, any other class covers exactly one character.
pub fn parse_level_one_tokens(text: &str) -> (result: Vec<Sequence<LevelOneToken>>)
    ensures
        result.deep_view() == scan1(text@),
{
    let mut result: Vec<Sequence<LevelOneToken>> = Vec::new();

    let n = text.unicode_len();
    let mut i: usize = 0;
    while i < n
        invariant
            n == text@.len(),
            i <= n,
            result.deep_view() + scan1_from(text@, i as int) == scan1(text@),
        decreases n - i,
    {
        let ghost s = text@;
        let c = text.get_char(i);
        let token = LevelOneToken::from(c);
        assert(token == classify(s[i as int]));

        let mut j: usize = i + 1;
        if token.is_greedy() {
            while j < n && LevelOneToken::from(text.get_char(j)) == token
                invariant
                    n == s.len(),
                    s == text@,
                    i < j <= n,
                    token == classify(s[i as int]),
                    forall|k: int| i <= k < j ==> classify(s[k]) == token,
                decreases n - j,
            {
                j = j + 1;
            }
        }
        proof {
            if is_greedy_class(token) {
                lemma_run_len_interval(s, i as int, j as int, token);
            }
            assert(span1_len(s, i as int) == j - i);
        }

        let span_text = text.substring_char(i, j).to_owned();
        let ghost prev = result.deep_view();
        result.push(Sequence { token, text: span_text });

        proof {
            lemma_run_len_bound(s, i as int, token);
            let head = SpanView { token, text: s.subrange(i as int, j as int) };
            assert(scan1_from(s, i as int) == seq![head] + scan1_from(s, j as int));
            assert(result.deep_view() =~= prev.push(head));
            assert(prev.push(head) + scan1_from(s, j as int) =~= prev + (seq![head] + scan1_from(
                s,
                j as int,
            )));
        }
        i = j;
    }
    proof {
        assert(scan1_from(text@, i as int) =~= Seq::empty());
        assert(result.deep_view() + Seq::empty() =~= result.deep_view());
    }
    result
}

} // verus!
