//! Shared facts about sequences of tagged spans: concatenating their texts,
//! and counting the newline characters a text contains.

use vstd::prelude::*;
use vstd::string::StringExecFns;

use crate::tokens::{Sequence, SpanView};

verus! {

/// The concatenation of the texts of a sequence of spans, in order.
pub open spec fn concat_texts<T>(spans: Seq<SpanView<T>>) -> Seq<char>
    decreases spans.len(),
{
    if spans.len() == 0 {
        Seq::empty()
    } else {
        spans[0].text + concat_texts(spans.drop_first())
    }
}

pub proof fn lemma_concat_texts_app<T>(a: Seq<SpanView<T>>, b: Seq<SpanView<T>>)
    ensures
        concat_texts(a + b) == concat_texts(a) + concat_texts(b),
    decreases a.len(),
{
    if a.len() == 0 {
        assert(a + b =~= b);
        assert(concat_texts(a) + concat_texts(b) =~= concat_texts(b));
    } else {
        lemma_concat_texts_app(a.drop_first(), b);
        assert((a + b).drop_first() =~= a.drop_first() + b);
        assert((a + b)[0] == a[0]);
        assert(a[0].text + (concat_texts(a.drop_first()) + concat_texts(b)) =~= (a[0].text
            + concat_texts(a.drop_first())) + concat_texts(b));
    }
}

pub proof fn lemma_concat_texts_single<T>(span: SpanView<T>)
    ensures
        concat_texts(seq![span]) == span.text,
{
    let single = seq![span];
    assert(single.drop_first() =~= Seq::<SpanView<T>>::empty());
    assert(concat_texts(single) == span.text + concat_texts(Seq::<SpanView<T>>::empty()));
    assert(span.text + Seq::<char>::empty() =~= span.text);
}

pub proof fn lemma_concat_texts_push<T>(spans: Seq<SpanView<T>>, span: SpanView<T>)
    ensures
        concat_texts(spans.push(span)) == concat_texts(spans) + span.text,
{
    lemma_concat_texts_app(spans, seq![span]);
    assert(spans.push(span) =~= spans + seq![span]);
    lemma_concat_texts_single(span);
}

/// Splitting a span range splits the concatenation of its texts.
pub proof fn lemma_concat_texts_split<T>(spans: Seq<SpanView<T>>, i: int, m: int, j: int)
    requires
        0 <= i <= m <= j <= spans.len(),
    ensures
        concat_texts(spans.subrange(i, j)) == concat_texts(spans.subrange(i, m)) + concat_texts(
            spans.subrange(m, j),
        ),
{
    assert(spans.subrange(i, j) =~= spans.subrange(i, m) + spans.subrange(m, j));
    lemma_concat_texts_app(spans.subrange(i, m), spans.subrange(m, j));
}

/// How many `'\n'` characters a text contains.
pub open spec fn count_newlines(text: Seq<char>) -> nat
    decreases text.len(),
{
    if text.len() == 0 {
        0
    } else {
        count_newlines(text.drop_last()) + (if text.last() == '\n' {
            1nat
        } else {
            0nat
        })
    }
}

pub proof fn lemma_count_newlines_app(a: Seq<char>, b: Seq<char>)
    ensures
        count_newlines(a + b) == count_newlines(a) + count_newlines(b),
    decreases b.len(),
{
    if b.len() == 0 {
        assert(a + b =~= a);
    } else {
        lemma_count_newlines_app(a, b.drop_last());
        assert((a + b).drop_last() =~= a + b.drop_last());
        assert((a + b).last() == b.last());
    }
}

pub proof fn lemma_count_newlines_zero(text: Seq<char>)
    requires
        forall|j: int| 0 <= j < text.len() ==> text[j] != '\n',
    ensures
        count_newlines(text) == 0,
    decreases text.len(),
{
    if text.len() > 0 {
        lemma_count_newlines_zero(text.drop_last());
    }
}

pub proof fn lemma_count_newlines_le_len(text: Seq<char>)
    ensures
        count_newlines(text) <= text.len(),
    decreases text.len(),
{
    if text.len() > 0 {
        lemma_count_newlines_le_len(text.drop_last());
    }
}

/// The newlines inside any prefix of the spans are no more than the
/// newlines of the whole text, which are no more than its length.
pub proof fn lemma_prefix_newlines_bound<T>(spans: Seq<SpanView<T>>, m: int)
    requires
        0 <= m <= spans.len(),
    ensures
        count_newlines(concat_texts(spans.take(m))) <= concat_texts(spans).len(),
{
    assert(spans.take(m) =~= spans.subrange(0, m));
    assert(spans =~= spans.subrange(0, m) + spans.subrange(m, spans.len() as int));
    lemma_concat_texts_app(spans.subrange(0, m), spans.subrange(m, spans.len() as int));
    lemma_count_newlines_app(
        concat_texts(spans.subrange(0, m)),
        concat_texts(spans.subrange(m, spans.len() as int)),
    );
    lemma_count_newlines_le_len(concat_texts(spans));
    lemma_count_newlines_le_len(concat_texts(spans.subrange(m, spans.len() as int)));
}

/// The texts of the spans `[from, to)`, joined into one string.
pub fn concat_range<T: DeepView>(spans: &Vec<Sequence<T>>, from: usize, to: usize) -> (s: String)
    requires
        from <= to <= spans@.len(),
    ensures
        s@ == concat_texts(spans.deep_view().subrange(from as int, to as int)),
{
    let mut s = String::new();
    let mut k = from;
    while k < to
        invariant
            from <= k <= to <= spans@.len(),
            s@ == concat_texts(spans.deep_view().subrange(from as int, k as int)),
        decreases to - k,
    {
        s.append(spans[k].text.as_str());
        proof {
            let sv = spans.deep_view();
            assert(sv.subrange(from as int, k + 1) =~= sv.subrange(from as int, k as int).push(
                sv[k as int],
            ));
            lemma_concat_texts_push(sv.subrange(from as int, k as int), sv[k as int]);
        }
        k = k + 1;
    }
    s
}

} // verus!
