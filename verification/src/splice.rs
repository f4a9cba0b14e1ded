//! Putting new values in place of the spans of a text.
//!
//! A span is a range of byte offsets. The spans of one text are replaced from
//! left to right; what lies between them is kept as it is.

use crate::text::{
    bytes_of, can_slice, lemma_bytes_of_concat, lemma_bytes_of_injective,
    lemma_bytes_of_text_between, sliceable, slice, text_between,
};
use vstd::prelude::*;
use vstd::string::*;
use vstd::utf8::*;

verus! {

/// Where span `k` begins.
pub open spec fn span_start(spans: Seq<Option<(usize, usize)>>, k: int) -> int {
    spans[k]->Some_0.0 as int
}

/// Where span `k` ends.
pub open spec fn span_end(spans: Seq<Option<(usize, usize)>>, k: int) -> int {
    spans[k]->Some_0.1 as int
}

/// Where the kept text in front of span `k` begins: at the end of the span
/// before it, or at the start of the text.
pub open spec fn gap_start(spans: Seq<Option<(usize, usize)>>, k: int) -> int {
    if k <= 0 {
        0
    } else {
        span_end(spans, k - 1)
    }
}

/// Where the kept text in front of span `k` ends: at the start of span `k`, or,
/// behind the last span, at the end of the text.
pub open spec fn gap_end(text: Seq<u8>, spans: Seq<Option<(usize, usize)>>, k: int) -> int {
    if k < spans.len() {
        span_start(spans, k)
    } else {
        text.len() as int
    }
}

/// Whether the spans can be replaced one after another: each is present, can
/// be sliced out of the text, and does not begin before the previous one ends.
pub open spec fn replaceable(text: Seq<u8>, spans: Seq<Option<(usize, usize)>>) -> bool {
    forall|k: int|
        0 <= k < spans.len() ==> {
            &&& #[trigger] spans[k] is Some
            &&& gap_start(spans, k) <= span_start(spans, k)
            &&& sliceable(text, span_start(spans, k), span_end(spans, k))
        }
}

/// The bytes of each value.
pub open spec fn bytes_of_each(values: Seq<Seq<char>>) -> Seq<Seq<u8>> {
    Seq::new(values.len(), |i: int| bytes_of(values[i]))
}

/// The output as far as the first `k` spans determine it: for each of them the
/// kept text in front of it, then the value that takes its place.
pub open spec fn spliced_head(
    text: Seq<u8>,
    spans: Seq<Option<(usize, usize)>>,
    values: Seq<Seq<u8>>,
    k: int,
) -> Seq<u8>
    decreases k,
{
    if k <= 0 {
        Seq::empty()
    } else {
        spliced_head(text, spans, values, k - 1) + text.subrange(
            gap_start(spans, k - 1),
            span_start(spans, k - 1),
        ) + values[k - 1]
    }
}

/// The text with `values[k]` in place of span `k`, for every span.
pub open spec fn spliced(
    text: Seq<u8>,
    spans: Seq<Option<(usize, usize)>>,
    values: Seq<Seq<u8>>,
) -> Seq<u8> {
    spliced_head(text, spans, values, spans.len() as int) + text.subrange(
        gap_start(spans, spans.len() as int),
        text.len() as int,
    )
}

/// The output as far as the first `k` spans determine it, as characters.
pub open spec fn spliced_text_head(
    text: Seq<char>,
    spans: Seq<Option<(usize, usize)>>,
    values: Seq<Seq<char>>,
    k: int,
) -> Seq<char>
    decreases k,
{
    if k <= 0 {
        Seq::empty()
    } else {
        spliced_text_head(text, spans, values, k - 1) + text_between(
            text,
            gap_start(spans, k - 1),
            span_start(spans, k - 1),
        ) + values[k - 1]
    }
}

/// The text with `values[k]` in place of span `k`, for every span, as
/// characters.
pub open spec fn spliced_text(
    text: Seq<char>,
    spans: Seq<Option<(usize, usize)>>,
    values: Seq<Seq<char>>,
) -> Seq<char> {
    spliced_text_head(text, spans, values, spans.len() as int) + text_between(
        text,
        gap_start(spans, spans.len() as int),
        bytes_of(text).len() as int,
    )
}

/// Replaces each span of `text` by the value of the same index.
///
/// Succeeds exactly when there is a value for every span and the spans are
/// `replaceable`; values beyond the last span are not used.
pub fn substitute(text: &str, spans: &[Option<(usize, usize)>], values: &Vec<String>) -> (out:
    Option<String>)
    ensures
        out is Some <==> spans@.len() <= values@.len() && replaceable(bytes_of(text@), spans@),
        out matches Some(s) ==> bytes_of(s@) == spliced(
            bytes_of(text@),
            spans@,
            bytes_of_each(values.deep_view()),
        ),
        out matches Some(s) ==> s@ == spliced_text(text@, spans@, values.deep_view()),
{
    let ghost bytes = bytes_of(text@);
    let ghost vals = bytes_of_each(values.deep_view());
    let len: usize = text.as_bytes().len();
    if spans.len() > values.len() {
        return None;
    }
    proof {
        encode_utf8_valid_utf8(text@);
        is_char_boundary_start_end_of_seq(bytes);
    }
    let mut out = String::new();
    let mut last: usize = 0;
    let mut i: usize = 0;
    while i < spans.len()
        invariant
            bytes == bytes_of(text@),
            vals == bytes_of_each(values.deep_view()),
            valid_utf8(bytes),
            len == bytes.len(),
            i <= spans@.len() <= values@.len(),
            last == gap_start(spans@, i as int),
            last <= len,
            is_char_boundary(bytes, last as int),
            forall|k: int|
                0 <= k < i ==> {
                    &&& #[trigger] spans@[k] is Some
                    &&& gap_start(spans@, k) <= span_start(spans@, k)
                    &&& sliceable(bytes, span_start(spans@, k), span_end(spans@, k))
                },
            bytes_of(out@) == spliced_head(bytes, spans@, vals, i as int),
        decreases spans@.len() - i,
    {
        let (from, to): (usize, usize) = match spans[i] {
            Some(span) => span,
            None => {
                return None;
            },
        };
        if from < last || !can_slice(text, from, to) {
            return None;
        }
        let ghost before = out@;
        let kept = slice(text, last, from);
        out.append(kept);
        out.append(values[i].as_str());
        proof {
            lemma_bytes_of_concat(before, kept@);
            lemma_bytes_of_concat(before + kept@, values@[i as int]@);
            assert(vals[i as int] == bytes_of(values@[i as int]@));
        }
        last = to;
        i = i + 1;
    }
    let ghost before = out@;
    let kept = slice(text, last, len);
    out.append(kept);
    proof {
        lemma_bytes_of_concat(before, kept@);
        lemma_spliced_text(text@, spans@, values.deep_view());
        lemma_bytes_of_injective(out@, spliced_text(text@, spans@, values.deep_view()));
    }
    Some(out)
}

/// What is put out for the first `j` spans is the beginning of what is put out
/// for the first `k`, when `j <= k`.
pub proof fn lemma_head_grows(
    text: Seq<u8>,
    spans: Seq<Option<(usize, usize)>>,
    values: Seq<Seq<u8>>,
    j: int,
    k: int,
)
    requires
        0 <= j <= k,
    ensures
        spliced_head(text, spans, values, j).len() <= spliced_head(text, spans, values, k).len(),
        spliced_head(text, spans, values, k).subrange(
            0,
            spliced_head(text, spans, values, j).len() as int,
        ) == spliced_head(text, spans, values, j),
    decreases k - j,
{
    let short = spliced_head(text, spans, values, j);
    let long = spliced_head(text, spans, values, k);
    if j == k {
        assert(long.subrange(0, short.len() as int) =~= short);
    } else {
        lemma_head_grows(text, spans, values, j, k - 1);
        let mid = spliced_head(text, spans, values, k - 1);
        assert(long.subrange(0, mid.len() as int) =~= mid);
        assert(long.subrange(0, short.len() as int) =~= mid.subrange(0, short.len() as int));
    }
}

/// Literal preservation: in the output every stretch of the text that lies
/// outside the spans stands unchanged, and behind the stretch in front of span
/// `k` stands the value for span `k`.
///
/// The stretch in front of span `k` (for `k == spans.len()`, the one behind the
/// last span) begins in the output where the output for the first `k` spans
/// ends. Behind the value for span `k` the output for the first `k + 1` spans
/// ends, and behind the last stretch the whole output: the stretches and the
/// values are all that the output holds.
pub proof fn lemma_literals_kept(
    text: Seq<u8>,
    spans: Seq<Option<(usize, usize)>>,
    values: Seq<Seq<u8>>,
    k: int,
)
    requires
        replaceable(text, spans),
        spans.len() <= values.len(),
        0 <= k <= spans.len(),
    ensures
        ({
            let out = spliced(text, spans, values);
            let at = spliced_head(text, spans, values, k).len() as int;
            let from = gap_start(spans, k);
            let to = gap_end(text, spans, k);
            &&& 0 <= from <= to <= text.len()
            &&& at + (to - from) <= out.len()
            &&& out.subrange(at, at + (to - from)) == text.subrange(from, to)
            &&& k < spans.len() ==> {
                let next = at + (to - from) + values[k].len();
                &&& next <= out.len()
                &&& out.subrange(at + (to - from), next) == values[k]
                &&& spliced_head(text, spans, values, k + 1).len() == next
            }
            &&& k == spans.len() ==> at + (to - from) == out.len()
        }),
{
    let n = spans.len() as int;
    let out = spliced(text, spans, values);
    let head = spliced_head(text, spans, values, k);
    let from = gap_start(spans, k);
    let to = gap_end(text, spans, k);
    if k > 0 {
        assert(spans[k - 1] is Some);
    }
    if k < n {
        assert(spans[k] is Some);
        let next = spliced_head(text, spans, values, k + 1);
        let whole = spliced_head(text, spans, values, n);
        lemma_head_grows(text, spans, values, k + 1, n);
        assert(next == head + text.subrange(from, to) + values[k]);
        assert forall|x: int| 0 <= x < next.len() implies out[x] == next[x] by {
            assert(whole.subrange(0, next.len() as int)[x] == whole[x]);
        }
        assert(out.subrange(head.len() as int, head.len() + (to - from)) =~= text.subrange(
            from,
            to,
        ));
        assert(out.subrange(head.len() + (to - from), head.len() + (to - from) + values[k].len())
            =~= values[k]);
    } else {
        assert(out.subrange(head.len() as int, head.len() + (to - from)) =~= text.subrange(
            from,
            to,
        ));
    }
}

/// Putting back what was there changes nothing: when each value is the very
/// bytes of the span it replaces, the output is the text.
pub proof fn lemma_same_values_same_text(
    text: Seq<u8>,
    spans: Seq<Option<(usize, usize)>>,
    values: Seq<Seq<u8>>,
)
    requires
        replaceable(text, spans),
        spans.len() <= values.len(),
        forall|k: int|
            0 <= k < spans.len() ==> #[trigger] values[k] == text.subrange(
                span_start(spans, k),
                span_end(spans, k),
            ),
    ensures
        spliced(text, spans, values) == text,
{
    let n = spans.len() as int;
    lemma_head_is_text(text, spans, values, n);
    if n > 0 {
        assert(spans[n - 1] is Some);
    }
    assert(spliced(text, spans, values) =~= text);
}

/// With each value the bytes of its span, the output for the first `k` spans
/// is the text up to the end of span `k - 1`.
proof fn lemma_head_is_text(
    text: Seq<u8>,
    spans: Seq<Option<(usize, usize)>>,
    values: Seq<Seq<u8>>,
    k: int,
)
    requires
        replaceable(text, spans),
        spans.len() <= values.len(),
        0 <= k <= spans.len(),
        forall|j: int|
            0 <= j < spans.len() ==> #[trigger] values[j] == text.subrange(
                span_start(spans, j),
                span_end(spans, j),
            ),
    ensures
        0 <= gap_start(spans, k) <= text.len(),
        spliced_head(text, spans, values, k) == text.subrange(0, gap_start(spans, k)),
    decreases k,
{
    if k > 0 {
        lemma_head_is_text(text, spans, values, k - 1);
        assert(spans[k - 1] is Some);
        assert(values[k - 1] == text.subrange(span_start(spans, k - 1), span_end(spans, k - 1)));
        assert(spliced_head(text, spans, values, k) =~= text.subrange(0, gap_start(spans, k)));
    } else {
        assert(spliced_head(text, spans, values, k) =~= text.subrange(0, 0));
    }
}

/// The two ways of saying what is put out agree: the characters of the one
/// have the bytes of the other.
pub proof fn lemma_spliced_text(
    text: Seq<char>,
    spans: Seq<Option<(usize, usize)>>,
    values: Seq<Seq<char>>,
)
    requires
        replaceable(bytes_of(text), spans),
        spans.len() <= values.len(),
    ensures
        bytes_of(spliced_text(text, spans, values)) == spliced(
            bytes_of(text),
            spans,
            bytes_of_each(values),
        ),
{
    let n = spans.len() as int;
    let bytes = bytes_of(text);
    lemma_spliced_text_head(text, spans, values, n);
    if n > 0 {
        assert(spans[n - 1] is Some);
    }
    encode_utf8_valid_utf8(text);
    is_char_boundary_start_end_of_seq(bytes);
    lemma_bytes_of_text_between(text, gap_start(spans, n), bytes.len() as int);
    lemma_bytes_of_concat(
        spliced_text_head(text, spans, values, n),
        text_between(text, gap_start(spans, n), bytes.len() as int),
    );
}

/// The same for what the first `k` spans determine.
proof fn lemma_spliced_text_head(
    text: Seq<char>,
    spans: Seq<Option<(usize, usize)>>,
    values: Seq<Seq<char>>,
    k: int,
)
    requires
        replaceable(bytes_of(text), spans),
        spans.len() <= values.len(),
        0 <= k <= spans.len(),
    ensures
        bytes_of(spliced_text_head(text, spans, values, k)) == spliced_head(
            bytes_of(text),
            spans,
            bytes_of_each(values),
            k,
        ),
    decreases k,
{
    let bytes = bytes_of(text);
    if k > 0 {
        lemma_spliced_text_head(text, spans, values, k - 1);
        assert(spans[k - 1] is Some);
        if k > 1 {
            assert(spans[k - 2] is Some);
        }
        encode_utf8_valid_utf8(text);
        let before = spliced_text_head(text, spans, values, k - 1);
        let kept = text_between(text, gap_start(spans, k - 1), span_start(spans, k - 1));
        lemma_bytes_of_text_between(text, gap_start(spans, k - 1), span_start(spans, k - 1));
        lemma_bytes_of_concat(before, kept);
        lemma_bytes_of_concat(before + kept, values[k - 1]);
    }
}

} // verus!
