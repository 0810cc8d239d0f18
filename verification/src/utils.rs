//! Run-length segmentation of text into maximal digit / non-digit runs.

use vstd::prelude::*;

verus! {

/// The classification the tokenizer works with: is `c` one of the ten
/// decimal digits? Every other character (letters, punctuation,
/// whitespace, any other codepoint) counts as non-digit.
pub open spec fn is_digit_char(c: char) -> bool {
    48 <= c as u32 && c as u32 <= 57
}

/// The segments the tokenizer must produce for the character sequence `s`:
/// the maximal runs of uniformly classified characters, in input order.
/// An empty input yields one empty segment.
pub open spec fn tokenize(s: Seq<char>) -> Seq<Seq<char>>
    decreases s.len(),
{
    if s.len() == 0 {
        seq![Seq::<char>::empty()]
    } else if s.len() == 1 {
        seq![s]
    } else {
        let rest = tokenize(s.drop_first());
        if is_digit_char(s[0]) == is_digit_char(s[1]) {
            seq![seq![s[0]] + rest[0]] + rest.drop_first()
        } else {
            seq![seq![s[0]]] + rest
        }
    }
}

/// The concatenation, in order, of a sequence of segments.
pub open spec fn concat_segs(segs: Seq<Seq<char>>) -> Seq<char>
    decreases segs.len(),
{
    if segs.len() == 0 {
        Seq::empty()
    } else {
        segs[0] + concat_segs(segs.drop_first())
    }
}

/// Every segment of a non-empty input is non-empty, the first segment
/// starts with the first input character, each segment is uniformly
/// classified, and consecutive segments carry opposite classifications.
proof fn lemma_tokenize_shape(s: Seq<char>)
    requires
        s.len() > 0,
    ensures
        tokenize(s).len() >= 1,
        forall|i: int| 0 <= i < tokenize(s).len() ==> (#[trigger] tokenize(s)[i]).len() > 0,
        tokenize(s)[0][0] == s[0],
        forall|i: int, j: int|
            0 <= i < tokenize(s).len() && 0 <= j < tokenize(s)[i].len() ==> is_digit_char(
                #[trigger] tokenize(s)[i][j],
            ) == is_digit_char(tokenize(s)[i][0]),
        forall|i: int|
            0 <= i && i + 1 < tokenize(s).len() ==> is_digit_char(
                (#[trigger] tokenize(s)[i])[0],
            ) != is_digit_char(tokenize(s)[i + 1][0]),
    decreases s.len(),
{
    if s.len() == 1 {
        assert(tokenize(s) == seq![s]);
    } else {
        let t = s.drop_first();
        lemma_tokenize_shape(t);
        let rest = tokenize(t);
        let segs = tokenize(s);
        if is_digit_char(s[0]) == is_digit_char(s[1]) {
            let merged = seq![s[0]] + rest[0];
            assert(segs == seq![merged] + rest.drop_first());
            assert(merged[0] == s[0]);
            assert(forall|i: int| 1 <= i < segs.len() ==> segs[i] == rest[i]);
            assert forall|j: int| 0 <= j < merged.len() implies is_digit_char(
                #[trigger] merged[j],
            ) == is_digit_char(merged[0]) by {
                if j >= 1 {
                    assert(merged[j] == rest[0][j - 1]);
                    assert(is_digit_char(rest[0][j - 1]) == is_digit_char(rest[0][0]));
                    assert(rest[0][0] == t[0]);
                    assert(t[0] == s[1]);
                }
            }
            assert forall|i: int, j: int|
                0 <= i < segs.len() && 0 <= j < segs[i].len() implies is_digit_char(
                #[trigger] segs[i][j],
            ) == is_digit_char(segs[i][0]) by {
                if i >= 1 {
                    assert(segs[i] == rest[i]);
                }
            }
            assert forall|i: int| 0 <= i && i + 1 < segs.len() implies is_digit_char(
                (#[trigger] segs[i])[0],
            ) != is_digit_char(segs[i + 1][0]) by {
                if i == 0 {
                    assert(merged[0] == s[0]);
                    assert(rest[0][0] == t[0]);
                    assert(segs[1] == rest[1]);
                    assert(is_digit_char(rest[0][0]) != is_digit_char(rest[1][0]));
                } else {
                    assert(segs[i] == rest[i]);
                    assert(segs[i + 1] == rest[i + 1]);
                }
            }
        } else {
            assert(segs == seq![seq![s[0]]] + rest);
            assert(forall|i: int| 1 <= i < segs.len() ==> segs[i] == rest[i - 1]);
            assert forall|i: int, j: int|
                0 <= i < segs.len() && 0 <= j < segs[i].len() implies is_digit_char(
                #[trigger] segs[i][j],
            ) == is_digit_char(segs[i][0]) by {
                if i >= 1 {
                    assert(segs[i] == rest[i - 1]);
                }
            }
            assert forall|i: int| 0 <= i && i + 1 < segs.len() implies is_digit_char(
                (#[trigger] segs[i])[0],
            ) != is_digit_char(segs[i + 1][0]) by {
                if i == 0 {
                    assert(segs[1] == rest[0]);
                    assert(rest[0][0] == t[0]);
                    assert(t[0] == s[1]);
                } else {
                    assert(segs[i] == rest[i - 1]);
                    assert(segs[i + 1] == rest[i]);
                }
            }
        }
    }
}

/// Concatenating the segments of `s`, in order, rebuilds `s` exactly.
pub proof fn lemma_partition_complete(s: Seq<char>)
    ensures
        concat_segs(tokenize(s)) == s,
    decreases s.len(),
{
    if s.len() == 0 {
        assert(concat_segs(Seq::<Seq<char>>::empty()) == Seq::<char>::empty());
        assert(tokenize(s).drop_first() =~= Seq::<Seq<char>>::empty());
        assert(concat_segs(tokenize(s)) =~= s);
    } else if s.len() == 1 {
        assert(concat_segs(Seq::<Seq<char>>::empty()) == Seq::<char>::empty());
        assert(tokenize(s).drop_first() =~= Seq::<Seq<char>>::empty());
        assert(concat_segs(tokenize(s)) =~= s);
    } else {
        let t = s.drop_first();
        lemma_partition_complete(t);
        lemma_tokenize_shape(t);
        let rest = tokenize(t);
        let segs = tokenize(s);
        assert(concat_segs(rest) == rest[0] + concat_segs(rest.drop_first()));
        if is_digit_char(s[0]) == is_digit_char(s[1]) {
            let merged = seq![s[0]] + rest[0];
            let tail = concat_segs(rest.drop_first());
            assert(rest[0] + tail == t);
            assert(segs == seq![merged] + rest.drop_first());
            assert(segs.drop_first() =~= rest.drop_first());
            assert(concat_segs(segs) == merged + tail);
            assert(merged + tail =~= seq![s[0]] + (rest[0] + tail));
            assert(seq![s[0]] + t =~= s);
        } else {
            assert(segs == seq![seq![s[0]]] + rest);
            assert(segs.drop_first() =~= rest);
            assert(concat_segs(segs) == seq![s[0]] + concat_segs(rest));
            assert(concat_segs(segs) =~= s);
        }
    }
}

/// A non-empty input whose characters all classify alike comes back as a
/// single segment.
proof fn lemma_tokenize_uniform(s: Seq<char>)
    requires
        s.len() > 0,
        forall|j: int| 0 <= j < s.len() ==> is_digit_char(#[trigger] s[j]) == is_digit_char(s[0]),
    ensures
        tokenize(s) == seq![s],
    decreases s.len(),
{
    if s.len() == 1 {
        assert(tokenize(s) == seq![s]);
    } else {
        let t = s.drop_first();
        assert forall|j: int| 0 <= j < t.len() implies is_digit_char(#[trigger] t[j])
            == is_digit_char(t[0]) by {
            assert(t[j] == s[j + 1]);
            assert(t[0] == s[1]);
        }
        lemma_tokenize_uniform(t);
        assert(is_digit_char(s[0]) == is_digit_char(s[1]));
        assert(tokenize(t)[0] == t);
        assert(seq![s[0]] + t =~= s);
        assert(tokenize(t).drop_first() =~= Seq::<Seq<char>>::empty());
        assert(tokenize(s) =~= seq![s]);
    }
}

/// Peeling a completed run off the front: if the first `k` characters of
/// `s` classify alike and the character at `k` breaks the run, the
/// segments of `s` are that prefix followed by the segments of the rest.
proof fn lemma_tokenize_run_split(s: Seq<char>, k: int)
    requires
        0 < k < s.len(),
        forall|j: int| 0 <= j < k ==> is_digit_char(#[trigger] s[j]) == is_digit_char(s[0]),
        is_digit_char(s[k]) != is_digit_char(s[0]),
    ensures
        tokenize(s) == seq![s.subrange(0, k)] + tokenize(s.subrange(k, s.len() as int)),
    decreases k,
{
    let t = s.drop_first();
    if k == 1 {
        assert(is_digit_char(s[1]) != is_digit_char(s[0]));
        assert(tokenize(s) == seq![seq![s[0]]] + tokenize(t));
        assert(s.subrange(0, 1) =~= seq![s[0]]);
        assert(t =~= s.subrange(1, s.len() as int));
    } else {
        assert(is_digit_char(s[1]) == is_digit_char(s[0]));
        assert forall|j: int| 0 <= j < k - 1 implies is_digit_char(#[trigger] t[j])
            == is_digit_char(t[0]) by {
            assert(t[j] == s[j + 1]);
            assert(t[0] == s[1]);
        }
        assert(t[k - 1] == s[k]);
        lemma_tokenize_run_split(t, k - 1);
        let rest = tokenize(t);
        assert(rest[0] == t.subrange(0, k - 1));
        assert(rest.drop_first() =~= tokenize(t.subrange(k - 1, t.len() as int)));
        assert(t.subrange(k - 1, t.len() as int) =~= s.subrange(k, s.len() as int));
        assert(seq![s[0]] + t.subrange(0, k - 1) =~= s.subrange(0, k));
        assert(tokenize(s) == seq![seq![s[0]] + rest[0]] + rest.drop_first());
        assert(tokenize(s) =~= seq![s.subrange(0, k)] + tokenize(s.subrange(k, s.len() as int)));
    }
}

/// The input position at which segment `i` begins: the summed lengths of
/// the segments before it.
pub open spec fn seg_start(segs: Seq<Seq<char>>, i: int) -> int
    decreases i,
{
    if i <= 0 {
        0
    } else {
        seg_start(segs, i - 1) + segs[i - 1].len()
    }
}

proof fn lemma_seg_start_shift(segs: Seq<Seq<char>>, i: int)
    requires
        1 <= i <= segs.len(),
    ensures
        seg_start(segs, i) == segs[0].len() + seg_start(segs.drop_first(), i - 1),
    decreases i,
{
    if i == 1 {
        assert(seg_start(segs, 0) == 0);
        assert(seg_start(segs.drop_first(), 0) == 0);
    } else {
        lemma_seg_start_shift(segs, i - 1);
        assert(segs.drop_first()[i - 2] == segs[i - 1]);
        assert(seg_start(segs, i) == seg_start(segs, i - 1) + segs[i - 1].len());
        assert(seg_start(segs.drop_first(), i - 1) == seg_start(segs.drop_first(), i - 2)
            + segs.drop_first()[i - 2].len());
    }
}

proof fn lemma_concat_segs_index(segs: Seq<Seq<char>>, i: int, j: int)
    requires
        0 <= i < segs.len(),
        0 <= j < segs[i].len(),
    ensures
        0 <= seg_start(segs, i) + j < concat_segs(segs).len(),
        concat_segs(segs)[seg_start(segs, i) + j] == segs[i][j],
    decreases i,
{
    assert(concat_segs(segs) == segs[0] + concat_segs(segs.drop_first()));
    if i == 0 {
        assert(concat_segs(segs)[j] == segs[0][j]);
    } else {
        let d = segs.drop_first();
        assert(d[i - 1] == segs[i]);
        lemma_concat_segs_index(d, i - 1, j);
        lemma_seg_start_shift(segs, i);
        assert(concat_segs(segs)[segs[0].len() + (seg_start(d, i - 1) + j)] == concat_segs(d)[
            seg_start(d, i - 1) + j
        ]);
    }
}

/// Where each character of the input lands: the input character at
/// position `seg_start(tokenize(s), i) + j` is character `j` of segment
/// `i`, and its digit test, applied in isolation, agrees with the
/// classification of the segment containing it.
pub proof fn lemma_classification_in_input(s: Seq<char>, i: int, j: int)
    requires
        0 <= i < tokenize(s).len(),
        0 <= j < tokenize(s)[i].len(),
    ensures
        0 <= seg_start(tokenize(s), i) + j < s.len(),
        s[seg_start(tokenize(s), i) + j] == tokenize(s)[i][j],
        is_digit_char(s[seg_start(tokenize(s), i) + j]) == is_digit_char(tokenize(s)[i][0]),
{
    lemma_partition_complete(s);
    lemma_concat_segs_index(tokenize(s), i, j);
    lemma_classification(s);
}

/// No two consecutive segments share a classification: every run is
/// extended as far as possible before a boundary is emitted. Segments of
/// a non-empty input are never empty, so indexing their first character
/// is meaningful.
pub proof fn lemma_run_maximality(s: Seq<char>)
    requires
        s.len() > 0,
    ensures
        forall|i: int| 0 <= i < tokenize(s).len() ==> (#[trigger] tokenize(s)[i]).len() > 0,
        forall|i: int|
            0 <= i && i + 1 < tokenize(s).len() ==> is_digit_char(
                (#[trigger] tokenize(s)[i])[0],
            ) != is_digit_char(tokenize(s)[i + 1][0]),
{
    lemma_tokenize_shape(s);
}

/// Within one segment every character classifies like the segment's first
/// character; together with `lemma_partition_complete` this places each
/// input character in a segment of its own classification.
pub proof fn lemma_classification(s: Seq<char>)
    ensures
        forall|i: int, j: int|
            0 <= i < tokenize(s).len() && 0 <= j < tokenize(s)[i].len() ==> is_digit_char(
                #[trigger] tokenize(s)[i][j],
            ) == is_digit_char(tokenize(s)[i][0]),
{
    if s.len() > 0 {
        lemma_tokenize_shape(s);
    } else {
        assert(tokenize(s) == seq![Seq::<char>::empty()]);
    }
}

/// Tokenizing again any single segment that the tokenizer produced gives
/// that segment back unchanged, alone: segmentation is idempotent on its
/// own output taken segment by segment.
pub proof fn lemma_retokenize_segment(s: Seq<char>, i: int)
    requires
        0 <= i < tokenize(s).len(),
    ensures
        tokenize(tokenize(s)[i]) == seq![tokenize(s)[i]],
{
    if s.len() == 0 {
        assert(tokenize(s) == seq![Seq::<char>::empty()]);
        assert(tokenize(s)[i] =~= Seq::<char>::empty());
    } else {
        lemma_tokenize_shape(s);
        lemma_tokenize_uniform(tokenize(s)[i]);
    }
}

/// Tokenizing the empty input yields exactly one segment, itself empty.
pub proof fn lemma_empty_input()
    ensures
        tokenize(Seq::<char>::empty()) == seq![Seq::<char>::empty()],
{
}

/// Decides `is_digit_char` for a single character.
pub fn char_is_digit(c: char) -> (r: bool)
    ensures
        r == is_digit_char(c),
{
    let u = c as u32;
    48 <= u && u <= 57
}

/// The mathematical view of a produced vector of segments: each owned
/// string replaced by its character sequence.
pub open spec fn seg_views(v: Seq<String>) -> Seq<Seq<char>> {
    v.map_values(|t: String| t@)
}

/// Namespace for the text utilities of the driver.
pub struct Utils {}

impl Utils {
    /// Splits `input` into its maximal runs of digit and non-digit
    /// characters, in input order. An empty input yields a single empty
    /// segment; concatenating the returned segments always rebuilds
    /// `input` exactly.
    pub fn separate_numbers_and_non_numbers(input: &str) -> (result: Vec<String>)
        ensures
            seg_views(result@) == tokenize(input@),
    {
        let n = input.unicode_len();
        let mut result: Vec<String> = Vec::new();
        if n == 0 {
            result.push(String::new());
            proof {
                assert(seg_views(result@) =~= seq![Seq::<char>::empty()]);
            }
            return result;
        }
        let mut run_digit = char_is_digit(input.get_char(0));
        let mut start: usize = 0;
        let mut i: usize = 1;
        proof {
            assert(input@.subrange(0, n as int) =~= input@);
            assert(seg_views(result@) =~= Seq::<Seq<char>>::empty());
            assert(seg_views(result@) + tokenize(input@) =~= tokenize(input@));
        }
        while i < n
            invariant
                n == input@.len(),
                1 <= i <= n,
                start < i,
                run_digit == is_digit_char(input@[start as int]),
                forall|j: int|
                    start <= j < i ==> is_digit_char(#[trigger] input@[j]) == is_digit_char(
                        input@[start as int],
                    ),
                tokenize(input@) == seg_views(result@) + tokenize(
                    input@.subrange(start as int, n as int),
                ),
            decreases n - i,
        {
            let c = input.get_char(i);
            let d = char_is_digit(c);
            if d != run_digit {
                let seg = input.substring_char(start, i);
                let owned = seg.to_owned();
                let ghost prev = result@;
                let ghost rem = input@.subrange(start as int, n as int);
                let ghost k = i - start;
                proof {
                    assert forall|j: int| 0 <= j < k implies is_digit_char(#[trigger] rem[j])
                        == is_digit_char(rem[0]) by {
                        assert(rem[j] == input@[start + j]);
                        assert(rem[0] == input@[start as int]);
                    }
                    assert(rem[k] == input@[i as int]);
                    lemma_tokenize_run_split(rem, k);
                    assert(rem.subrange(0, k) =~= input@.subrange(start as int, i as int));
                    assert(rem.subrange(k, rem.len() as int) =~= input@.subrange(
                        i as int,
                        n as int,
                    ));
                }
                result.push(owned);
                proof {
                    assert(seg_views(result@) =~= seg_views(prev).push(
                        input@.subrange(start as int, i as int),
                    ));
                    assert(seg_views(prev).push(input@.subrange(start as int, i as int))
                        + tokenize(input@.subrange(i as int, n as int)) =~= seg_views(prev) + (seq![
                        input@.subrange(start as int, i as int),
                    ] + tokenize(input@.subrange(i as int, n as int))));
                }
                start = i;
                run_digit = d;
            }
            i += 1;
        }
        let seg = input.substring_char(start, n);
        let owned = seg.to_owned();
        let ghost prev = result@;
        let ghost rem = input@.subrange(start as int, n as int);
        proof {
            assert forall|j: int| 0 <= j < rem.len() implies is_digit_char(#[trigger] rem[j])
                == is_digit_char(rem[0]) by {
                assert(rem[j] == input@[start + j]);
                assert(rem[0] == input@[start as int]);
            }
            lemma_tokenize_uniform(rem);
        }
        result.push(owned);
        proof {
            assert(seg_views(result@) =~= seg_views(prev).push(rem));
            assert(seg_views(prev).push(rem) =~= seg_views(prev) + seq![rem]);
        }
        result
    }
}

} // verus!
