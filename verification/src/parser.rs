//! The three-pass tokenization pipeline: character classification, structural
//! classification, and literal/comment disambiguation, with the lossless
//! round-trip guarantee proved over the whole pipeline.

use vstd::prelude::*;

pub use crate::tokens::{Sequence, Token};

use crate::pass1::{lemma_scan1_lossless, lemma_scan1_wf, parse_level_one_tokens, scan1};
use crate::pass2::{lemma_scan2_lossless, lemma_scan2_newlines, parse_level_two_tokens, scan2};
use crate::pass3::{
    lemma_scan3_lossless, lemma_scan3_newlines, parse_level_three_tokens, scan3,
};
use crate::spans::{
    concat_texts, count_newlines, lemma_concat_texts_app, lemma_count_newlines_app,
};
use crate::tokens::{line_of, SpanView, TokenView};

verus! {

/// The final tokens of an input text: pass 1 feeds pass 2 feeds pass 3.
pub open spec fn parse_spec(s: Seq<char>) -> Seq<SpanView<TokenView>> {
    scan3(scan2(scan1(s)))
}

/// Runs the whole pipeline on one text and returns the final tokens.
pub fn parse(text: &str) -> (result: Vec<Sequence<Token>>)
    requires
        text@.len() < usize::MAX,
    ensures
        result.deep_view() == parse_spec(text@),
{
    let result = parse_level_one_tokens(text);
    proof {
        lemma_scan1_lossless(text@, 0);
        assert(text@.subrange(0, text@.len() as int) =~= text@);
    }
    let result = parse_level_two_tokens(&result);
    parse_level_three_tokens(&result)
}

/// Losslessness: for all input text, concatenating the texts of every
/// emitted final token reproduces the input exactly.
pub proof fn lemma_parse_lossless(s: Seq<char>)
    ensures
        concat_texts(parse_spec(s)) == s,
{
    lemma_scan1_lossless(s, 0);
    assert(s.subrange(0, s.len() as int) =~= s);
    let sp1 = scan1(s);
    lemma_scan2_lossless(sp1, 0, 1);
    assert(sp1.subrange(0, sp1.len() as int) =~= sp1);
    let sp2 = scan2(sp1);
    lemma_scan3_lossless(sp2, 0);
    assert(sp2.subrange(0, sp2.len() as int) =~= sp2);
}

/// Line numbering, exact form: every emitted `NewLine` token's value is one
/// more than the count of `'\n'` characters in the output text up to and
/// including its own span.
pub proof fn lemma_parse_line_numbers(s: Seq<char>)
    ensures
        forall|k: int|
            0 <= k < parse_spec(s).len() && (#[trigger] parse_spec(s)[k]).token is NewLine
                ==> line_of(parse_spec(s)[k].token) == 1 + count_newlines(
                concat_texts(parse_spec(s).take(k + 1)),
            ),
{
    let sp1 = scan1(s);
    let sp2 = scan2(sp1);
    let out = parse_spec(s);
    lemma_scan1_wf(s, 0);
    lemma_scan2_newlines(sp1, 0, 1);
    lemma_scan3_newlines(sp2, 0);
    assert forall|k: int|
        0 <= k < out.len() && (#[trigger] out[k]).token is NewLine implies line_of(out[k].token)
        == 1 + count_newlines(concat_texts(out.take(k + 1))) by {
        assert(sp2.take(0) =~= Seq::<SpanView<crate::tokens::LevelTwoTokenView>>::empty());
        assert(concat_texts(sp2.take(0)) + concat_texts(out.take(k + 1)) =~= concat_texts(
            out.take(k + 1),
        ));
    }
}

/// Line monotonicity: the values of the emitted `NewLine` tokens never
/// decrease along the token stream.
pub proof fn lemma_parse_lines_monotonic(s: Seq<char>, k1: int, k2: int)
    requires
        0 <= k1 <= k2 < parse_spec(s).len(),
        parse_spec(s)[k1].token is NewLine,
        parse_spec(s)[k2].token is NewLine,
    ensures
        line_of(parse_spec(s)[k1].token) <= line_of(parse_spec(s)[k2].token),
{
    lemma_parse_line_numbers(s);
    let out = parse_spec(s);
    assert(out.take(k2 + 1) =~= out.take(k1 + 1) + out.subrange(k1 + 1, k2 + 1));
    lemma_concat_texts_app(out.take(k1 + 1), out.subrange(k1 + 1, k2 + 1));
    lemma_count_newlines_app(
        concat_texts(out.take(k1 + 1)),
        concat_texts(out.subrange(k1 + 1, k2 + 1)),
    );
}

/// Determinism: the token sequence is a function of the input text alone,
/// so scanning the same text twice yields identical results.
pub proof fn lemma_parse_deterministic(
    first: Seq<SpanView<TokenView>>,
    second: Seq<SpanView<TokenView>>,
    s: Seq<char>,
)
    requires
        first == parse_spec(s),
        second == parse_spec(s),
    ensures
        first == second,
{
}

} // verus!
