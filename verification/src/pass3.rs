//! Pass 3: the literal and comment disambiguator. Consumes pass-2 spans with
//! one span of lookahead, resolving comment bodies (with nesting), string and
//! raw-string bodies (with delimiter-count matching), and the char-literal
//! versus lifetime-elision ambiguity. Malformed constructs become `Invalid`
//! tokens; the scan always continues right after them.

use vstd::prelude::*;
use vstd::string::{StrSliceExecFns, StringExecFns};

use crate::spans::{
    concat_range, concat_texts, lemma_concat_texts_app, lemma_concat_texts_single,
    lemma_concat_texts_split,
};
use crate::pass2::newlines_numbered_from;
use crate::spans::{count_newlines, lemma_concat_texts_push, lemma_count_newlines_app};
use crate::tokens::{
    fallback_token, invalid_char_literal_msg, invalid_raw_string_literal_msg, level_two_line_of,
    line_of, multi_line_comment_without_beggining_msg, unclosed_char_literal_msg,
    unclosed_multi_line_comment_msg, unclosed_string_literal_msg, LevelTwoToken,
    LevelTwoTokenView, Sequence, SpanView, Token, TokenView,
};

verus! {

/// First position at or after `j` that holds a newline span; a line comment
/// extends up to there, the newline itself excluded.
pub open spec fn slc_end(spans: Seq<SpanView<LevelTwoTokenView>>, j: int) -> int
    decreases spans.len() - j,
{
    if j < 0 || j >= spans.len() {
        spans.len() as int
    } else if spans[j].token is NewLine {
        j
    } else {
        slc_end(spans, j + 1)
    }
}

pub proof fn lemma_slc_end_bounds(spans: Seq<SpanView<LevelTwoTokenView>>, j: int)
    requires
        0 <= j <= spans.len(),
    ensures
        j <= slc_end(spans, j) <= spans.len(),
    decreases spans.len() - j,
{
    if j < spans.len() && !(spans[j].token is NewLine) {
        lemma_slc_end_bounds(spans, j + 1);
    }
}

/// Scans a block comment body from `j` with `level` comment levels open.
/// Yields the position after the construct and the number of levels still
/// open there: zero means the comment was closed, anything else means the
/// input ended first.
pub open spec fn mlc_scan(spans: Seq<SpanView<LevelTwoTokenView>>, j: int, level: nat) -> (
    int,
    nat,
)
    decreases spans.len() - j,
{
    if j < 0 || j >= spans.len() {
        (spans.len() as int, level)
    } else if spans[j].token is BeginMultiLineComment {
        mlc_scan(spans, j + 1, level + 1)
    } else if spans[j].token is EndMultiLineComment {
        if level == 1 {
            (j + 1, 0)
        } else {
            mlc_scan(spans, j + 1, (level - 1) as nat)
        }
    } else {
        mlc_scan(spans, j + 1, level)
    }
}

pub proof fn lemma_mlc_scan_bounds(spans: Seq<SpanView<LevelTwoTokenView>>, j: int, level: nat)
    requires
        0 <= j <= spans.len(),
    ensures
        j <= mlc_scan(spans, j, level).0 <= spans.len(),
    decreases spans.len() - j,
{
    if j < spans.len() {
        if spans[j].token is BeginMultiLineComment {
            lemma_mlc_scan_bounds(spans, j + 1, level + 1);
        } else if spans[j].token is EndMultiLineComment {
            if level != 1 {
                lemma_mlc_scan_bounds(spans, j + 1, (level - 1) as nat);
            }
        } else {
            lemma_mlc_scan_bounds(spans, j + 1, level);
        }
    }
}

/// Scans a string-literal body from `j`. In a plain string (`raw` false) a
/// backslash skips the span after it; a delimiter closes the literal when
/// `hash_len` is zero, or when a hash span of exactly `hash_len` characters
/// follows. Yields the position after the literal and whether it was closed.
pub open spec fn str_scan(
    spans: Seq<SpanView<LevelTwoTokenView>>,
    j: int,
    raw: bool,
    hash_len: nat,
) -> (int, bool)
    decreases spans.len() - j,
{
    if j < 0 || j >= spans.len() {
        (spans.len() as int, false)
    } else if spans[j].token is BackSlash && !raw {
        if j + 2 <= spans.len() {
            str_scan(spans, j + 2, raw, hash_len)
        } else {
            (spans.len() as int, false)
        }
    } else if spans[j].token is StrDelimiter {
        if hash_len == 0 {
            (j + 1, true)
        } else if j + 1 < spans.len() && spans[j + 1].token is Hash && spans[j + 1].text.len()
            == hash_len {
            (j + 2, true)
        } else {
            str_scan(spans, j + 1, raw, hash_len)
        }
    } else {
        str_scan(spans, j + 1, raw, hash_len)
    }
}

pub proof fn lemma_str_scan_bounds(
    spans: Seq<SpanView<LevelTwoTokenView>>,
    j: int,
    raw: bool,
    hash_len: nat,
)
    requires
        0 <= j,
    ensures
        str_scan(spans, j, raw, hash_len).0 <= spans.len(),
        j <= spans.len() ==> j <= str_scan(spans, j, raw, hash_len).0,
    decreases spans.len() - j,
{
    if 0 <= j < spans.len() {
        if spans[j].token is BackSlash && !raw {
            if j + 2 <= spans.len() {
                lemma_str_scan_bounds(spans, j + 2, raw, hash_len);
            }
        } else if spans[j].token is StrDelimiter {
            if hash_len != 0 && !(j + 1 < spans.len() && spans[j + 1].token is Hash && spans[j
                + 1].text.len() == hash_len) {
                lemma_str_scan_bounds(spans, j + 1, raw, hash_len);
            }
        } else {
            lemma_str_scan_bounds(spans, j + 1, raw, hash_len);
        }
    }
}

/// Scans from `j` for the delimiter that closes a char literal. Yields the
/// position after the construct and whether a closing delimiter was found.
pub open spec fn char_scan(spans: Seq<SpanView<LevelTwoTokenView>>, j: int) -> (int, bool)
    decreases spans.len() - j,
{
    if j < 0 || j >= spans.len() {
        (spans.len() as int, false)
    } else if spans[j].token is CharDelimiter {
        (j + 1, true)
    } else {
        char_scan(spans, j + 1)
    }
}

pub proof fn lemma_char_scan_bounds(spans: Seq<SpanView<LevelTwoTokenView>>, j: int)
    requires
        0 <= j,
    ensures
        char_scan(spans, j).0 <= spans.len(),
        j <= spans.len() ==> j <= char_scan(spans, j).0,
    decreases spans.len() - j,
{
    if 0 <= j < spans.len() && !(spans[j].token is CharDelimiter) {
        lemma_char_scan_bounds(spans, j + 1);
    }
}

/// Resolution of a block comment opened at `i`.
pub open spec fn mlc_step(spans: Seq<SpanView<LevelTwoTokenView>>, i: int) -> (TokenView, int) {
    let (end, unclosed) = mlc_scan(spans, i + 1, 1);
    if unclosed == 0 {
        (TokenView::MultiLineComment, end)
    } else {
        (TokenView::Invalid(unclosed_multi_line_comment_msg(unclosed)), end)
    }
}

/// Resolution of a line comment opened at `i`.
pub open spec fn slc_step(spans: Seq<SpanView<LevelTwoTokenView>>, i: int) -> (TokenView, int) {
    (TokenView::SingleLineComment, slc_end(spans, i + 1))
}

/// Resolution of a string literal whose opening delimiter stands at `i`.
pub open spec fn str_step(
    spans: Seq<SpanView<LevelTwoTokenView>>,
    i: int,
    raw: bool,
    hash_len: nat,
) -> (TokenView, int) {
    let (end, closed) = str_scan(spans, i + 1, raw, hash_len);
    if closed {
        (TokenView::StrLiteral, end)
    } else {
        (TokenView::Invalid(unclosed_string_literal_msg()), end)
    }
}

/// Resolution of a raw string whose prefix stands at `i`. With a non-zero
/// hash count the prefix must be followed by the hash span and then a
/// delimiter, else the opener itself is invalid.
pub open spec fn raw_str_step(spans: Seq<SpanView<LevelTwoTokenView>>, i: int, hash_len: nat) -> (
    TokenView,
    int,
) {
    if hash_len > 0 {
        if i + 2 < spans.len() && spans[i + 2].token is StrDelimiter {
            str_step(spans, i + 2, true, hash_len)
        } else {
            (TokenView::Invalid(invalid_raw_string_literal_msg()), i + 2)
        }
    } else {
        str_step(spans, i + 1, true, 0)
    }
}

/// Resolution of a string prefix at `i`: a literal opener only when a hash
/// or a delimiter follows at once; otherwise the prefix span alone is
/// re-emitted as plain text.
pub open spec fn possible_str_step(spans: Seq<SpanView<LevelTwoTokenView>>, i: int) -> (
    TokenView,
    int,
) {
    if i + 1 < spans.len() {
        match spans[i + 1].token {
            LevelTwoTokenView::Hash => raw_str_step(spans, i, spans[i + 1].text.len()),
            LevelTwoTokenView::StrDelimiter => raw_str_step(spans, i, 0),
            _ => (TokenView::Other, i + 1),
        }
    } else {
        (TokenView::Other, i + 1)
    }
}

/// Resolution of a char delimiter at `i`: an escape or a plain span scans
/// for the closing delimiter; a word closes at once into a char literal or
/// stays open as a lifetime elision; anything else is invalid.
pub open spec fn char_step(spans: Seq<SpanView<LevelTwoTokenView>>, i: int) -> (TokenView, int) {
    if i + 1 >= spans.len() {
        (TokenView::Invalid(unclosed_char_literal_msg()), i + 1)
    } else {
        match spans[i + 1].token {
            LevelTwoTokenView::BackSlash => {
                let (end, closed) = char_scan(spans, i + 3);
                if closed {
                    (TokenView::CharLiteral, end)
                } else {
                    (TokenView::Invalid(unclosed_char_literal_msg()), end)
                }
            },
            LevelTwoTokenView::Word => char_word_step(spans, i),
            LevelTwoTokenView::StrPrefix => char_word_step(spans, i),
            LevelTwoTokenView::StrDelimiter => char_other_step(spans, i),
            LevelTwoTokenView::Other => char_other_step(spans, i),
            _ => (TokenView::Invalid(invalid_char_literal_msg()), i + 2),
        }
    }
}

/// A word right after a char delimiter: a char literal if the next span
/// closes it at once, else a lifetime elision with no closing delimiter.
pub open spec fn char_word_step(spans: Seq<SpanView<LevelTwoTokenView>>, i: int) -> (
    TokenView,
    int,
) {
    if i + 2 < spans.len() && spans[i + 2].token is CharDelimiter {
        (TokenView::CharLiteral, i + 3)
    } else {
        (TokenView::LifetimeElision, i + 2)
    }
}

/// A plain span right after a char delimiter: scan for the closing one.
pub open spec fn char_other_step(spans: Seq<SpanView<LevelTwoTokenView>>, i: int) -> (
    TokenView,
    int,
) {
    let (end, closed) = char_scan(spans, i + 2);
    if closed {
        (TokenView::CharLiteral, end)
    } else {
        (TokenView::Invalid(unclosed_char_literal_msg()), end)
    }
}

/// One step of pass 3 at position `i`: the emitted final token and the
/// position after the spans it consumed.
pub open spec fn step3(spans: Seq<SpanView<LevelTwoTokenView>>, i: int) -> (TokenView, int) {
    match spans[i].token {
        LevelTwoTokenView::BeginMultiLineComment => mlc_step(spans, i),
        LevelTwoTokenView::BeginSingleLineComment => slc_step(spans, i),
        LevelTwoTokenView::CharDelimiter => char_step(spans, i),
        LevelTwoTokenView::EndMultiLineComment => (
            TokenView::Invalid(multi_line_comment_without_beggining_msg()),
            i + 1,
        ),
        LevelTwoTokenView::StrDelimiter => str_step(spans, i, false, 0),
        LevelTwoTokenView::StrPrefix => possible_str_step(spans, i),
        _ => (fallback_token(spans[i].token), i + 1),
    }
}

pub proof fn lemma_step3_bounds(spans: Seq<SpanView<LevelTwoTokenView>>, i: int)
    requires
        0 <= i < spans.len(),
    ensures
        i < step3(spans, i).1 <= spans.len(),
{
    match spans[i].token {
        LevelTwoTokenView::BeginMultiLineComment => {
            lemma_mlc_scan_bounds(spans, i + 1, 1);
        },
        LevelTwoTokenView::BeginSingleLineComment => {
            lemma_slc_end_bounds(spans, i + 1);
        },
        LevelTwoTokenView::CharDelimiter => {
            if i + 1 < spans.len() {
                lemma_char_scan_bounds(spans, i + 2);
                lemma_char_scan_bounds(spans, i + 3);
            }
        },
        LevelTwoTokenView::StrDelimiter => {
            lemma_str_scan_bounds(spans, i + 1, false, 0);
        },
        LevelTwoTokenView::StrPrefix => {
            if i + 1 < spans.len() {
                lemma_str_scan_bounds(spans, i + 2, true, 0);
                if spans[i + 1].token is Hash {
                    lemma_str_scan_bounds(spans, i + 3, true, spans[i + 1].text.len());
                }
            }
        },
        _ => {},
    }
}

/// The final tokens from position `i` on.
pub open spec fn scan3_from(spans: Seq<SpanView<LevelTwoTokenView>>, i: int) -> Seq<
    SpanView<TokenView>,
>
    decreases spans.len() - i,
{
    if i < 0 || i >= spans.len() {
        Seq::empty()
    } else {
        proof {
            lemma_step3_bounds(spans, i);
        }
        let (token, end) = step3(spans, i);
        seq![SpanView { token, text: concat_texts(spans.subrange(i, end)) }] + scan3_from(
            spans,
            end,
        )
    }
}

/// The final tokens of a whole pass-2 sequence.
pub open spec fn scan3(spans: Seq<SpanView<LevelTwoTokenView>>) -> Seq<SpanView<TokenView>> {
    scan3_from(spans, 0)
}

/// Concatenating the final tokens' texts gives back the concatenation of the
/// pass-2 spans' texts: losslessness of pass 3.
pub proof fn lemma_scan3_lossless(spans: Seq<SpanView<LevelTwoTokenView>>, i: int)
    requires
        0 <= i <= spans.len(),
    ensures
        concat_texts(scan3_from(spans, i)) == concat_texts(
            spans.subrange(i, spans.len() as int),
        ),
    decreases spans.len() - i,
{
    if i >= spans.len() {
        assert(concat_texts(scan3_from(spans, i)) =~= concat_texts(
            spans.subrange(i, spans.len() as int),
        ));
    } else {
        lemma_step3_bounds(spans, i);
        let (token, end) = step3(spans, i);
        let head = SpanView { token, text: concat_texts(spans.subrange(i, end)) };
        assert(scan3_from(spans, i) == seq![head] + scan3_from(spans, end));
        lemma_scan3_lossless(spans, end);
        lemma_concat_texts_app(seq![head], scan3_from(spans, end));
        lemma_concat_texts_single(head);
        lemma_concat_texts_split(spans, i, end, spans.len() as int);
    }
}

/// Pass 3 hands `NewLine` tags through unchanged: every final `NewLine`
/// token carries one plus the count of `'\n'` characters in the output text
/// up to and including its own span, provided the pass-2 input was numbered
/// that way (with `line` starting at 1 and nothing consumed before `i`).
pub proof fn lemma_scan3_newlines(spans: Seq<SpanView<LevelTwoTokenView>>, i: int)
    requires
        0 <= i <= spans.len(),
        newlines_numbered_from(spans, 1),
    ensures
        forall|k: int|
            0 <= k < scan3_from(spans, i).len() && (#[trigger] scan3_from(spans, i)[k]).token
                is NewLine ==> line_of(scan3_from(spans, i)[k].token) == 1 + count_newlines(
                concat_texts(spans.take(i)) + concat_texts(scan3_from(spans, i).take(k + 1)),
            ),
    decreases spans.len() - i,
{
    if i < spans.len() {
        lemma_step3_bounds(spans, i);
        let (token, end) = step3(spans, i);
        let head = SpanView { token, text: concat_texts(spans.subrange(i, end)) };
        let rest = scan3_from(spans, end);
        let out = scan3_from(spans, i);
        assert(out == seq![head] + rest);
        lemma_scan3_newlines(spans, end);

        // the prefix of the input consumed through `end` splits at `i`
        assert(spans.take(end) =~= spans.take(i) + spans.subrange(i, end));
        lemma_concat_texts_app(spans.take(i), spans.subrange(i, end));
        lemma_count_newlines_app(concat_texts(spans.take(i)), head.text);

        assert forall|k: int|
            0 <= k < out.len() && (#[trigger] out[k]).token is NewLine implies line_of(
            out[k].token,
        ) == 1 + count_newlines(concat_texts(spans.take(i)) + concat_texts(out.take(k + 1))) by {
            if k == 0 {
                assert(out[0] == head);
                // only a pass-2 newline tag yields a final newline token
                assert(spans[i].token is NewLine);
                assert(end == i + 1);
                assert(line_of(head.token) == level_two_line_of(spans[i].token));
                assert(spans.take(i + 1) =~= spans.take(i).push(spans[i]));
                lemma_concat_texts_push(spans.take(i), spans[i]);
                assert(spans.subrange(i, i + 1) =~= seq![spans[i]]);
                lemma_concat_texts_single(spans[i]);
                assert(out.take(1) =~= seq![head]);
                lemma_concat_texts_single(head);
                lemma_count_newlines_app(concat_texts(spans.take(i)), spans[i].text);
            } else {
                assert(out[k] == rest[k - 1]);
                assert(rest[k - 1].token is NewLine);
                assert(line_of(rest[k - 1].token) == 1 + count_newlines(
                    concat_texts(spans.take(end)) + concat_texts(rest.take(k)),
                ));
                assert(out.take(k + 1) =~= seq![head] + rest.take(k));
                lemma_concat_texts_app(seq![head], rest.take(k));
                lemma_concat_texts_single(head);
                lemma_count_newlines_app(head.text, concat_texts(rest.take(k)));
                lemma_count_newlines_app(
                    concat_texts(spans.take(i)),
                    head.text + concat_texts(rest.take(k)),
                );
                lemma_count_newlines_app(
                    concat_texts(spans.take(end)),
                    concat_texts(rest.take(k)),
                );
            }
        }
    }
}

/// Extends a line comment opened at `i` until the next newline span or the
/// end of input; the newline itself stays outside the comment.
pub fn parse_single_line_comment(spans: &Vec<Sequence<LevelTwoToken>>, i: usize) -> (r: (
    Token,
    usize,
))
    requires
        i < spans@.len(),
    ensures
        ({
            let (token, end) = slc_step(spans.deep_view(), i as int);
            r.0.deep_view() == token && r.1 as int == end
        }),
        i < r.1 <= spans@.len(),
{
    let ghost sv = spans.deep_view();
    let n = spans.len();
    let mut j: usize = i + 1;
    while j < n && !matches!(spans[j].token, LevelTwoToken::NewLine(_))
        invariant
            sv == spans.deep_view(),
            n == sv.len(),
            i < j <= n,
            slc_end(sv, i + 1) == slc_end(sv, j as int),
        decreases n - j,
    {
        proof {
            assert(sv[j as int].token == spans@[j as int].token.deep_view());
        }
        j = j + 1;
    }
    proof {
        if j < n {
            assert(sv[j as int].token == spans@[j as int].token.deep_view());
        }
    }
    (Token::SingleLineComment, j)
}

/// Resolves a block comment opened at `i`, counting nested openers and
/// closers; if the input ends first, reports how many levels stayed open.
pub fn parse_multi_line_comment(spans: &Vec<Sequence<LevelTwoToken>>, i: usize) -> (r: (
    Token,
    usize,
))
    requires
        i < spans@.len(),
    ensures
        ({
            let (token, end) = mlc_step(spans.deep_view(), i as int);
            r.0.deep_view() == token && r.1 as int == end
        }),
        i < r.1 <= spans@.len(),
{
    let ghost sv = spans.deep_view();
    let n = spans.len();
    let mut level: usize = 1;
    let mut j: usize = i + 1;
    while j < n
        invariant
            sv == spans.deep_view(),
            n == sv.len(),
            i < j <= n,
            1 <= level <= j - i,
            mlc_scan(sv, j as int, level as nat) == mlc_scan(sv, i + 1, 1),
        decreases n - j,
    {
        proof {
            assert(sv[j as int].token == spans@[j as int].token.deep_view());
        }
        match spans[j].token {
            LevelTwoToken::BeginMultiLineComment => {
                level = level + 1;
            },
            LevelTwoToken::EndMultiLineComment => {
                level = level - 1;
                if level == 0 {
                    return (Token::MultiLineComment, j + 1);
                }
            },
            _ => {},
        }
        j = j + 1;
    }
    (Token::unclosed_multi_line_comment(level), n)
}

/// Scans a string-literal body whose opening delimiter stands at `i`. In a
/// plain string a backslash skips the span after it; a delimiter closes the
/// literal when `hash_len` is zero or when a hash span of exactly `hash_len`
/// characters follows.
pub fn parse_string_literal(
    spans: &Vec<Sequence<LevelTwoToken>>,
    i: usize,
    raw_string: bool,
    hash_len: usize,
) -> (r: (Token, usize))
    requires
        i < spans@.len(),
    ensures
        ({
            let (token, end) = str_step(spans.deep_view(), i as int, raw_string, hash_len as nat);
            r.0.deep_view() == token && r.1 as int == end
        }),
        i < r.1 <= spans@.len(),
{
    let ghost sv = spans.deep_view();
    let n = spans.len();
    let mut j: usize = i + 1;
    while j < n
        invariant
            sv == spans.deep_view(),
            n == sv.len(),
            i < j <= n,
            str_scan(sv, j as int, raw_string, hash_len as nat) == str_scan(
                sv,
                i + 1,
                raw_string,
                hash_len as nat,
            ),
        decreases n - j,
    {
        proof {
            assert(sv[j as int].token == spans@[j as int].token.deep_view());
        }
        match spans[j].token {
            LevelTwoToken::BackSlash => {
                if !raw_string {
                    // skip the escaped span as well
                    if j + 1 < n {
                        j = j + 2;
                    } else {
                        j = n;
                    }
                } else {
                    j = j + 1;
                }
            },
            LevelTwoToken::StrDelimiter => {
                if hash_len == 0 {
                    return (Token::StrLiteral, j + 1);
                }
                if j + 1 < n && matches!(spans[j + 1].token, LevelTwoToken::Hash) && spans[j
                    + 1].text.as_str().unicode_len() == hash_len {
                    proof {
                        assert(sv[j + 1] == spans@[j + 1].deep_view());
                    }
                    return (Token::StrLiteral, j + 2);
                }
                proof {
                    if j + 1 < n {
                        assert(sv[j + 1] == spans@[j + 1].deep_view());
                    }
                }
                j = j + 1;
            },
            _ => {
                j = j + 1;
            },
        }
    }
    (Token::unclosed_string_literal(), n)
}

/// Scans from `start` for the delimiter that closes a char literal.
pub fn parse_until_close_char_literal(spans: &Vec<Sequence<LevelTwoToken>>, start: usize) -> (r: (
    Token,
    usize,
))
    requires
        start <= spans@.len(),
    ensures
        ({
            let (end, closed) = char_scan(spans.deep_view(), start as int);
            r.1 as int == end && r.0.deep_view() == (if closed {
                TokenView::CharLiteral
            } else {
                TokenView::Invalid(unclosed_char_literal_msg())
            })
        }),
        start <= r.1 <= spans@.len(),
{
    let ghost sv = spans.deep_view();
    let n = spans.len();
    let mut j: usize = start;
    while j < n
        invariant
            sv == spans.deep_view(),
            n == sv.len(),
            start <= j <= n,
            char_scan(sv, j as int) == char_scan(sv, start as int),
        decreases n - j,
    {
        proof {
            assert(sv[j as int].token == spans@[j as int].token.deep_view());
        }
        if matches!(spans[j].token, LevelTwoToken::CharDelimiter) {
            return (Token::CharLiteral, j + 1);
        }
        j = j + 1;
    }
    (Token::unclosed_char_literal(), n)
}

/// Resolves a char delimiter at `i` into a char literal, a lifetime
/// elision, or an invalid token.
pub fn parse_char_literal_or_elison(spans: &Vec<Sequence<LevelTwoToken>>, i: usize) -> (r: (
    Token,
    usize,
))
    requires
        i < spans@.len(),
    ensures
        ({
            let (token, end) = char_step(spans.deep_view(), i as int);
            r.0.deep_view() == token && r.1 as int == end
        }),
        i < r.1 <= spans@.len(),
{
    let ghost sv = spans.deep_view();
    let n = spans.len();
    if i + 1 >= n {
        return (Token::unclosed_char_literal(), i + 1);
    }
    proof {
        assert(sv[i + 1].token == spans@[i + 1].token.deep_view());
    }
    match spans[i + 1].token {
        LevelTwoToken::BackSlash => {
            // the span right after the backslash is escaped and skipped
            let start = if n - (i + 1) >= 2 {
                i + 3
            } else {
                n
            };
            proof {
                assert(char_scan(sv, i + 3) == char_scan(sv, start as int));
                lemma_char_scan_bounds(sv, start as int);
            }
            parse_until_close_char_literal(spans, start)
        },
        LevelTwoToken::Word => char_word_arm(spans, i),
        LevelTwoToken::StrPrefix => char_word_arm(spans, i),
        LevelTwoToken::StrDelimiter => parse_until_close_char_literal(spans, i + 2),
        LevelTwoToken::Other => parse_until_close_char_literal(spans, i + 2),
        _ => (Token::invalid_char_literal(), i + 2),
    }
}

/// A word right after the opening delimiter: a one-word char literal when
/// the next span closes it, else a lifetime elision.
fn char_word_arm(spans: &Vec<Sequence<LevelTwoToken>>, i: usize) -> (r: (Token, usize))
    requires
        i + 1 < spans@.len(),
    ensures
        ({
            let (token, end) = char_word_step(spans.deep_view(), i as int);
            r.0.deep_view() == token && r.1 as int == end
        }),
        i < r.1 <= spans@.len(),
{
    let n = spans.len();
    proof {
        if i + 2 < spans@.len() {
            assert(spans.deep_view()[i + 2].token == spans@[i + 2].token.deep_view());
        }
    }
    if i + 2 < n && matches!(spans[i + 2].token, LevelTwoToken::CharDelimiter) {
        (Token::CharLiteral, i + 3)
    } else {
        (Token::LifetimeElision, i + 2)
    }
}

/// Resolves a raw string whose prefix stands at `i`: with a non-zero hash
/// count the hash span must be followed at once by a delimiter, else the
/// opener itself is invalid.
pub fn parse_raw_string_literal(
    spans: &Vec<Sequence<LevelTwoToken>>,
    i: usize,
    hash_len: usize,
) -> (r: (Token, usize))
    requires
        i + 1 < spans@.len(),
    ensures
        ({
            let (token, end) = raw_str_step(spans.deep_view(), i as int, hash_len as nat);
            r.0.deep_view() == token && r.1 as int == end
        }),
        i < r.1 <= spans@.len(),
{
    let ghost sv = spans.deep_view();
    let n = spans.len();
    proof {
        if i + 2 < n {
            assert(sv[i + 2].token == spans@[i + 2].token.deep_view());
        }
    }
    if hash_len > 0 {
        if i + 2 < n && matches!(spans[i + 2].token, LevelTwoToken::StrDelimiter) {
            parse_string_literal(spans, i + 2, true, hash_len)
        } else {
            (Token::invalid_raw_string_literal(), i + 2)
        }
    } else {
        parse_string_literal(spans, i + 1, true, 0)
    }
}

/// A string prefix opens a literal only when a hash span or a delimiter
/// follows at once; otherwise the prefix is re-emitted alone as plain text.
pub fn parse_possible_string_literal(spans: &Vec<Sequence<LevelTwoToken>>, i: usize) -> (r: (
    Token,
    usize,
))
    requires
        i < spans@.len(),
    ensures
        ({
            let (token, end) = possible_str_step(spans.deep_view(), i as int);
            r.0.deep_view() == token && r.1 as int == end
        }),
        i < r.1 <= spans@.len(),
{
    let ghost sv = spans.deep_view();
    let n = spans.len();
    if i + 1 < n {
        proof {
            assert(sv[i + 1] == spans@[i + 1].deep_view());
        }
        match spans[i + 1].token {
            LevelTwoToken::Hash => {
                let hash_len = spans[i + 1].text.as_str().unicode_len();
                parse_raw_string_literal(spans, i, hash_len)
            },
            LevelTwoToken::StrDelimiter => parse_raw_string_literal(spans, i, 0),
            _ => (Token::Other, i + 1),
        }
    } else {
        (Token::Other, i + 1)
    }
}

/// Consumes pass-2 spans with one span of lookahead and emits the final
/// tokens; malformed constructs become `Invalid` tokens and the scan
/// resumes right after them.
pub fn parse_level_three_tokens(sequences: &Vec<Sequence<LevelTwoToken>>) -> (result: Vec<
    Sequence<Token>,
>)
    ensures
        result.deep_view() == scan3(sequences.deep_view()),
{
    let ghost sv = sequences.deep_view();
    let mut result: Vec<Sequence<Token>> = Vec::new();

    let n = sequences.len();
    let mut i: usize = 0;
    while i < n
        invariant
            sv == sequences.deep_view(),
            n == sv.len(),
            i <= n,
            result.deep_view() + scan3_from(sv, i as int) == scan3(sv),
        decreases n - i,
    {
        proof {
            assert(sv[i as int].token == sequences@[i as int].token.deep_view());
        }
        let (token, end): (Token, usize) = match sequences[i].token {
            LevelTwoToken::BeginMultiLineComment => parse_multi_line_comment(sequences, i),
            LevelTwoToken::BeginSingleLineComment => parse_single_line_comment(sequences, i),
            LevelTwoToken::CharDelimiter => parse_char_literal_or_elison(sequences, i),
            LevelTwoToken::EndMultiLineComment => (
                Token::multi_line_comment_without_beggining(),
                i + 1,
            ),
            LevelTwoToken::StrDelimiter => parse_string_literal(sequences, i, false, 0),
            LevelTwoToken::StrPrefix => parse_possible_string_literal(sequences, i),
            other => (Token::from(other), i + 1),
        };

        proof {
            assert(step3(sv, i as int) == (token.deep_view(), end as int));
            lemma_step3_bounds(sv, i as int);
        }

        let span_text = concat_range(sequences, i, end);
        let ghost prev = result.deep_view();
        result.push(Sequence { token, text: span_text });

        proof {
            let head = SpanView {
                token: token.deep_view(),
                text: concat_texts(sv.subrange(i as int, end as int)),
            };
            assert(scan3_from(sv, i as int) == seq![head] + scan3_from(sv, end as int));
            assert(result.deep_view() =~= prev.push(head));
            assert(prev.push(head) + scan3_from(sv, end as int) =~= prev + (seq![head]
                + scan3_from(sv, end as int)));
        }
        i = end;
    }
    proof {
        assert(scan3_from(sv, i as int) =~= Seq::empty());
        assert(result.deep_view() + Seq::empty() =~= result.deep_view());
    }
    result
}

} // verus!
