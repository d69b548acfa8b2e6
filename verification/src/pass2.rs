//! Pass 2: the structural classifier. Consumes pass-1 spans with one span of
//! lookahead, recognizing two-span structural markers (comment openers and
//! closers, string prefixes, identifiers) and counting newlines to keep a
//! running 1-based line number.

use vstd::prelude::*;
use vstd::string::StringExecFns;

use crate::spans::{
    concat_texts, count_newlines, lemma_concat_texts_app, lemma_concat_texts_push,
    lemma_concat_texts_single, lemma_concat_texts_split, lemma_count_newlines_app,
    lemma_prefix_newlines_bound, concat_range,
};
use crate::pass1::wf_span1;
use crate::spans::lemma_count_newlines_zero;
use crate::tokens::{
    classify, fallback_level_two, level_two_line_of, LevelOneToken, LevelTwoToken,
    LevelTwoTokenView, Sequence, SpanView,
};

verus! {

/// A pass-1 tag that continues an identifier begun by a letter or underscore.
pub open spec fn continues_word(t: LevelOneToken) -> bool {
    t is UnderscoreLetter || t is Digit || t is LowerCaseB || t is LowerCaseR
}

/// First position at or after `j` whose span no longer continues a word.
pub open spec fn word_end(spans: Seq<SpanView<LevelOneToken>>, j: int) -> int
    decreases spans.len() - j,
{
    if j < 0 || j >= spans.len() {
        spans.len() as int
    } else if continues_word(spans[j].token) {
        word_end(spans, j + 1)
    } else {
        j
    }
}

pub proof fn lemma_word_end_bounds(spans: Seq<SpanView<LevelOneToken>>, j: int)
    requires
        0 <= j <= spans.len(),
    ensures
        j <= word_end(spans, j) <= spans.len(),
    decreases spans.len() - j,
{
    if j < spans.len() && continues_word(spans[j].token) {
        lemma_word_end_bounds(spans, j + 1);
    }
}

pub proof fn lemma_word_end_range(spans: Seq<SpanView<LevelOneToken>>, j: int)
    requires
        0 <= j <= spans.len(),
    ensures
        forall|k: int| j <= k < word_end(spans, j) ==> continues_word(spans[k].token),
    decreases spans.len() - j,
{
    if j < spans.len() && continues_word(spans[j].token) {
        lemma_word_end_range(spans, j + 1);
    }
}

/// One step of pass 2 at position `i` with running line number `line`:
/// the emitted tag, the position after the consumed spans, and the new
/// line number. First match on the transition table wins.
pub open spec fn step2(spans: Seq<SpanView<LevelOneToken>>, i: int, line: nat) -> (
    LevelTwoTokenView,
    int,
    nat,
) {
    let t = spans[i].token;
    match t {
        LevelOneToken::ForwardSlash => {
            if i + 1 < spans.len() && spans[i + 1].token is ForwardSlash {
                (LevelTwoTokenView::BeginSingleLineComment, i + 2, line)
            } else if i + 1 < spans.len() && spans[i + 1].token is Asterisk {
                (LevelTwoTokenView::BeginMultiLineComment, i + 2, line)
            } else {
                (LevelTwoTokenView::Other, i + 1, line)
            }
        },
        LevelOneToken::Asterisk => {
            if i + 1 < spans.len() && spans[i + 1].token is ForwardSlash {
                (LevelTwoTokenView::EndMultiLineComment, i + 2, line)
            } else {
                (LevelTwoTokenView::Other, i + 1, line)
            }
        },
        LevelOneToken::LowerCaseB => {
            if i + 1 < spans.len() && spans[i + 1].token is LowerCaseR {
                (LevelTwoTokenView::StrPrefix, i + 2, line)
            } else {
                (LevelTwoTokenView::StrPrefix, i + 1, line)
            }
        },
        LevelOneToken::LowerCaseR => (LevelTwoTokenView::StrPrefix, i + 1, line),
        LevelOneToken::NewLine => {
            let new_line = line + count_newlines(spans[i].text);
            (LevelTwoTokenView::NewLine(new_line), i + 1, new_line)
        },
        LevelOneToken::UnderscoreLetter => (LevelTwoTokenView::Word, word_end(spans, i + 1), line),
        _ => (fallback_level_two(t), i + 1, line),
    }
}

pub proof fn lemma_step2_bounds(spans: Seq<SpanView<LevelOneToken>>, i: int, line: nat)
    requires
        0 <= i < spans.len(),
    ensures
        i < step2(spans, i, line).1 <= spans.len(),
{
    if spans[i].token is UnderscoreLetter {
        lemma_word_end_bounds(spans, i + 1);
    }
}

/// The pass-2 spans from position `i` on, with running line number `line`.
pub open spec fn scan2_from(spans: Seq<SpanView<LevelOneToken>>, i: int, line: nat) -> Seq<
    SpanView<LevelTwoTokenView>,
>
    decreases spans.len() - i,
{
    if i < 0 || i >= spans.len() {
        Seq::empty()
    } else {
        proof {
            lemma_step2_bounds(spans, i, line);
        }
        let (token, end, new_line) = step2(spans, i, line);
        seq![SpanView { token, text: concat_texts(spans.subrange(i, end)) }] + scan2_from(
            spans,
            end,
            new_line,
        )
    }
}

/// The pass-2 spans of a whole pass-1 sequence; line numbering starts at 1.
pub open spec fn scan2(spans: Seq<SpanView<LevelOneToken>>) -> Seq<SpanView<LevelTwoTokenView>> {
    scan2_from(spans, 0, 1)
}

/// Concatenating the pass-2 spans' texts gives back the concatenation of the
/// pass-1 spans' texts: losslessness of pass 2.
pub proof fn lemma_scan2_lossless(spans: Seq<SpanView<LevelOneToken>>, i: int, line: nat)
    requires
        0 <= i <= spans.len(),
    ensures
        concat_texts(scan2_from(spans, i, line)) == concat_texts(
            spans.subrange(i, spans.len() as int),
        ),
    decreases spans.len() - i,
{
    if i >= spans.len() {
        assert(concat_texts(scan2_from(spans, i, line)) =~= concat_texts(
            spans.subrange(i, spans.len() as int),
        ));
    } else {
        lemma_step2_bounds(spans, i, line);
        let (token, end, new_line) = step2(spans, i, line);
        let head = SpanView { token, text: concat_texts(spans.subrange(i, end)) };
        assert(scan2_from(spans, i, line) == seq![head] + scan2_from(spans, end, new_line));
        lemma_scan2_lossless(spans, end, new_line);
        lemma_concat_texts_app(seq![head], scan2_from(spans, end, new_line));
        lemma_concat_texts_single(head);
        lemma_concat_texts_split(spans, i, end, spans.len() as int);
    }
}

/// Spans of non-newline classes hold no `'\n'` characters at all.
pub proof fn lemma_range_no_newlines(spans: Seq<SpanView<LevelOneToken>>, a: int, b: int)
    requires
        0 <= a <= b <= spans.len(),
        forall|k: int| 0 <= k < spans.len() ==> #[trigger] wf_span1(spans[k]),
        forall|k: int| a <= k < b ==> !((#[trigger] spans[k]).token is NewLine),
    ensures
        count_newlines(concat_texts(spans.subrange(a, b))) == 0,
    decreases b - a,
{
    if a < b {
        lemma_range_no_newlines(spans, a, b - 1);
        assert(spans.subrange(a, b) =~= spans.subrange(a, b - 1).push(spans[b - 1]));
        lemma_concat_texts_push(spans.subrange(a, b - 1), spans[b - 1]);
        lemma_count_newlines_app(concat_texts(spans.subrange(a, b - 1)), spans[b - 1].text);
        assert(wf_span1(spans[b - 1]));
        assert forall|j: int| 0 <= j < spans[b - 1].text.len() implies (#[trigger] spans[b
            - 1].text[j]) != '\n' by {
            assert(classify(spans[b - 1].text[j]) == spans[b - 1].token);
        }
        lemma_count_newlines_zero(spans[b - 1].text);
    }
}

/// Each `NewLine` tag of `out` carries `line` plus the count of `'\n'`
/// characters in the output text up to and including its own span.
pub open spec fn newlines_numbered_from(
    out: Seq<SpanView<LevelTwoTokenView>>,
    line: nat,
) -> bool {
    forall|k: int|
        0 <= k < out.len() && (#[trigger] out[k]).token is NewLine ==> level_two_line_of(
            out[k].token,
        ) == line + count_newlines(concat_texts(out.take(k + 1)))
}

/// Pass 2 numbers its `NewLine` tags by the newlines of the text scanned so
/// far: the carried value is the running line number after the span.
pub proof fn lemma_scan2_newlines(spans: Seq<SpanView<LevelOneToken>>, i: int, line: nat)
    requires
        0 <= i <= spans.len(),
        forall|k: int| 0 <= k < spans.len() ==> #[trigger] wf_span1(spans[k]),
    ensures
        newlines_numbered_from(scan2_from(spans, i, line), line),
    decreases spans.len() - i,
{
    if i < spans.len() {
        lemma_step2_bounds(spans, i, line);
        let (token, end, new_line) = step2(spans, i, line);
        let head = SpanView { token, text: concat_texts(spans.subrange(i, end)) };
        let rest = scan2_from(spans, end, new_line);
        let out = scan2_from(spans, i, line);
        assert(out == seq![head] + rest);
        lemma_scan2_newlines(spans, end, new_line);

        assert(new_line == line + count_newlines(head.text)) by {
            if spans[i].token is NewLine {
                assert(spans.subrange(i, i + 1) =~= seq![spans[i]]);
                lemma_concat_texts_single(spans[i]);
            } else {
                assert forall|k: int| i <= k < end implies !((#[trigger] spans[k]).token
                    is NewLine) by {
                    if spans[i].token is UnderscoreLetter {
                        lemma_word_end_range(spans, i + 1);
                    }
                }
                lemma_range_no_newlines(spans, i, end);
            }
        }

        assert forall|k: int|
            0 <= k < out.len() && (#[trigger] out[k]).token is NewLine implies level_two_line_of(
            out[k].token,
        ) == line + count_newlines(concat_texts(out.take(k + 1))) by {
            if k == 0 {
                assert(out[0] == head);
                assert(spans[i].token is NewLine);
                assert(level_two_line_of(head.token) == new_line);
                assert(out.take(1) =~= seq![head]);
                lemma_concat_texts_single(head);
            } else {
                assert(out[k] == rest[k - 1]);
                assert(rest[k - 1].token is NewLine);
                assert(level_two_line_of(rest[k - 1].token) == new_line + count_newlines(
                    concat_texts(rest.take(k)),
                ));
                assert(out.take(k + 1) =~= seq![head] + rest.take(k));
                lemma_concat_texts_app(seq![head], rest.take(k));
                lemma_concat_texts_single(head);
                lemma_count_newlines_app(head.text, concat_texts(rest.take(k)));
            }
        }
    }
}

/// Counts the `'\n'` characters in a piece of text.
pub fn cout_new_lines(text: &str) -> (new_lines: usize)
    ensures
        new_lines as nat == count_newlines(text@),
{
    let mut new_lines: usize = 0;

    let n = text.unicode_len();
    let mut k: usize = 0;
    while k < n
        invariant
            n == text@.len(),
            k <= n,
            new_lines <= k,
            new_lines as nat == count_newlines(text@.take(k as int)),
        decreases n - k,
    {
        let c = text.get_char(k);
        proof {
            assert(text@.take(k + 1).drop_last() =~= text@.take(k as int));
            assert(text@.take(k + 1).last() == text@[k as int]);
        }
        if c == '\n' {
            new_lines = new_lines + 1;
        }
        k = k + 1;
    }
    proof {
        assert(text@.take(n as int) =~= text@);
    }
    new_lines
}

/// Extends an identifier begun at `i` over the spans that continue it.
pub fn parse_word(spans: &Vec<Sequence<LevelOneToken>>, i: usize) -> (r: (LevelTwoToken, usize))
    requires
        i < spans@.len(),
    ensures
        r.0 == LevelTwoToken::Word,
        r.1 == word_end(spans.deep_view(), i + 1),
        i < r.1 <= spans@.len(),
{
    let ghost sv = spans.deep_view();
    let n = spans.len();
    let mut j: usize = i + 1;
    while j < n && matches!(
        spans[j].token,
        LevelOneToken::UnderscoreLetter
            | LevelOneToken::Digit
            | LevelOneToken::LowerCaseB
            | LevelOneToken::LowerCaseR
    )
        invariant
            sv == spans.deep_view(),
            n == sv.len(),
            i < j <= n,
            word_end(sv, i + 1) == word_end(sv, j as int),
        decreases n - j,
    {
        proof {
            assert(sv[j as int].token == spans@[j as int].token);
        }
        j = j + 1;
    }
    proof {
        if j < n {
            assert(sv[j as int].token == spans@[j as int].token);
            assert(!continues_word(sv[j as int].token));
        }
    }
    (LevelTwoToken::Word, j)
}

/// An asterisk closes a block comment when a forward slash follows at once.
pub fn parse_possible_end_multi_line_comment(
    spans: &Vec<Sequence<LevelOneToken>>,
    i: usize,
) -> (r: (LevelTwoToken, usize))
    requires
        i < spans@.len(),
    ensures
        ({
            let sv = spans.deep_view();
            if i + 1 < sv.len() && sv[i + 1].token is ForwardSlash {
                r == (LevelTwoToken::EndMultiLineComment, (i + 2) as usize)
            } else {
                r == (LevelTwoToken::Other, (i + 1) as usize)
            }
        }),
{
    let n = spans.len();
    if i + 1 < n && matches!(spans[i + 1].token, LevelOneToken::ForwardSlash) {
        proof {
            assert(spans.deep_view()[i + 1].token == spans@[i + 1].token);
        }
        (LevelTwoToken::EndMultiLineComment, i + 2)
    } else {
        proof {
            if i + 1 < spans@.len() {
                assert(spans.deep_view()[i + 1].token == spans@[i + 1].token);
            }
        }
        (LevelTwoToken::Other, i + 1)
    }
}

/// A forward slash opens a line comment before a second slash, a block
/// comment before an asterisk, and is plain text otherwise.
pub fn parse_possible_comment_token(spans: &Vec<Sequence<LevelOneToken>>, i: usize) -> (r: (
    LevelTwoToken,
    usize,
))
    requires
        i < spans@.len(),
    ensures
        ({
            let sv = spans.deep_view();
            if i + 1 < sv.len() && sv[i + 1].token is ForwardSlash {
                r == (LevelTwoToken::BeginSingleLineComment, (i + 2) as usize)
            } else if i + 1 < sv.len() && sv[i + 1].token is Asterisk {
                r == (LevelTwoToken::BeginMultiLineComment, (i + 2) as usize)
            } else {
                r == (LevelTwoToken::Other, (i + 1) as usize)
            }
        }),
{
    proof {
        if i + 1 < spans@.len() {
            assert(spans.deep_view()[i + 1].token == spans@[i + 1].token);
        }
    }
    let n = spans.len();
    if i + 1 < n && matches!(spans[i + 1].token, LevelOneToken::ForwardSlash) {
        (LevelTwoToken::BeginSingleLineComment, i + 2)
    } else if i + 1 < n && matches!(spans[i + 1].token, LevelOneToken::Asterisk) {
        (LevelTwoToken::BeginMultiLineComment, i + 2)
    } else {
        (LevelTwoToken::Other, i + 1)
    }
}

/// Consumes pass-1 spans with one span of lookahead and produces the pass-2
/// spans, threading the 1-based line counter through the scan.
pub fn parse_level_two_tokens(sequences: &Vec<Sequence<LevelOneToken>>) -> (result: Vec<
    Sequence<LevelTwoToken>,
>)
    requires
        concat_texts(sequences.deep_view()).len() < usize::MAX,
    ensures
        result.deep_view() == scan2(sequences.deep_view()),
{
    let ghost sv = sequences.deep_view();
    let mut result: Vec<Sequence<LevelTwoToken>> = Vec::new();

    let mut line_number: usize = 1;
    let n = sequences.len();
    let mut i: usize = 0;
    while i < n
        invariant
            sv == sequences.deep_view(),
            n == sv.len(),
            i <= n,
            concat_texts(sv).len() < usize::MAX,
            line_number as nat <= 1 + count_newlines(concat_texts(sv.take(i as int))),
            result.deep_view() + scan2_from(sv, i as int, line_number as nat) == scan2(sv),
        decreases n - i,
    {
        let ghost old_line = line_number as nat;
        proof {
            assert(sv[i as int].token == sequences@[i as int].token);
        }
        let (token, end): (LevelTwoToken, usize) = match sequences[i].token {
            LevelOneToken::Asterisk => parse_possible_end_multi_line_comment(sequences, i),
            LevelOneToken::ForwardSlash => parse_possible_comment_token(sequences, i),
            LevelOneToken::LowerCaseB => {
                if i + 1 < n && matches!(sequences[i + 1].token, LevelOneToken::LowerCaseR) {
                    proof {
                        assert(sv[i + 1].token == sequences@[i + 1].token);
                    }
                    (LevelTwoToken::StrPrefix, i + 2)
                } else {
                    proof {
                        if i + 1 < n {
                            assert(sv[i + 1].token == sequences@[i + 1].token);
                        }
                    }
                    (LevelTwoToken::StrPrefix, i + 1)
                }
            },
            LevelOneToken::LowerCaseR => (LevelTwoToken::StrPrefix, i + 1),
            LevelOneToken::NewLine => {
                let new_lines = cout_new_lines(sequences[i].text.as_str());
                proof {
                    assert(sv[i as int].text == sequences@[i as int].text@);
                    assert(sv.take(i + 1) =~= sv.take(i as int).push(sv[i as int]));
                    lemma_concat_texts_push(sv.take(i as int), sv[i as int]);
                    lemma_count_newlines_app(
                        concat_texts(sv.take(i as int)),
                        sv[i as int].text,
                    );
                    lemma_prefix_newlines_bound(sv, i + 1);
                }
                line_number = line_number + new_lines;
                (LevelTwoToken::NewLine(line_number), i + 1)
            },
            LevelOneToken::UnderscoreLetter => parse_word(sequences, i),
            other => (LevelTwoToken::from(other), i + 1),
        };

        proof {
            assert(step2(sv, i as int, old_line) == (
                token.deep_view(),
                end as int,
                line_number as nat,
            ));
            lemma_step2_bounds(sv, i as int, old_line);
        }

        let span_text = concat_range(sequences, i, end);
        let ghost prev = result.deep_view();
        result.push(Sequence { token, text: span_text });

        proof {
            let head = SpanView {
                token: token.deep_view(),
                text: concat_texts(sv.subrange(i as int, end as int)),
            };
            assert(scan2_from(sv, i as int, old_line) == seq![head] + scan2_from(
                sv,
                end as int,
                line_number as nat,
            ));
            assert(result.deep_view() =~= prev.push(head));
            assert(prev.push(head) + scan2_from(sv, end as int, line_number as nat) =~= prev + (
            seq![head] + scan2_from(sv, end as int, line_number as nat)));
            // the line bound survives the step
            lemma_concat_texts_split(sv, 0, i as int, end as int);
            lemma_count_newlines_app(
                concat_texts(sv.subrange(0, i as int)),
                concat_texts(sv.subrange(i as int, end as int)),
            );
            assert(sv.take(i as int) =~= sv.subrange(0, i as int));
            assert(sv.take(end as int) =~= sv.subrange(0, end as int));
        }
        i = end;
    }
    proof {
        assert(scan2_from(sv, i as int, line_number as nat) =~= Seq::empty());
        assert(result.deep_view() + Seq::empty() =~= result.deep_view());
        assert(sv.take(sv.len() as int) =~= sv);
    }
    result
}

} // verus!
