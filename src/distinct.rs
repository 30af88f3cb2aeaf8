use vstd::prelude::*;
use crate::ngram::{gram, num_windows, same_gram, window_count};
use crate::score::{Fraction, MetricError};
use crate::tokens::{tokenize, view_words, words};

verus! {

/// The token sequences of a tokenized corpus.
pub open spec fn corpus_view(v: Seq<Vec<Vec<char>>>) -> Seq<Seq<Seq<char>>> {
    v.map_values(|t: Vec<Vec<char>>| view_words(t@))
}

/// The whitespace-separated words of each text of a corpus.
pub open spec fn corpus_words(texts: Seq<&str>) -> Seq<Seq<Seq<char>>> {
    texts.map_values(|s: &str| words(s@))
}

/// Total number of n-gram windows over all texts of a corpus.
pub open spec fn total_windows(ws: Seq<Seq<Seq<char>>>, n: int) -> int
    decreases ws.len(),
{
    if ws.len() == 0 {
        0
    } else {
        total_windows(ws.drop_last(), n) + window_count(ws.last().len() as int, n)
    }
}

/// The n-grams that occur anywhere in a corpus.
pub open spec fn corpus_grams(ws: Seq<Seq<Seq<char>>>, n: int) -> Set<Seq<Seq<char>>> {
    Set::new(|g: Seq<Seq<char>>| exists|u: int, i: int|
        0 <= u < ws.len() && 0 <= i < window_count(ws[u].len() as int, n) && #[trigger] gram(ws[u], i, n) == g)
}

/// The n-grams of the windows that come before window `p` of text `t`.
pub open spec fn grams_before(ws: Seq<Seq<Seq<char>>>, n: int, t: int, p: int) -> Set<Seq<Seq<char>>> {
    Set::new(|g: Seq<Seq<char>>| exists|u: int, i: int|
        0 <= u <= t && u < ws.len() && 0 <= i < window_count(ws[u].len() as int, n)
            && (u < t || i < p) && #[trigger] gram(ws[u], i, n) == g)
}

/// Distinct-n of a corpus as `(numerator, denominator)`: the number of
/// distinct n-grams over the total number of n-gram occurrences, and `0 / 1`
/// when no text holds an n-gram.
pub open spec fn distinct_ratio(ws: Seq<Seq<Seq<char>>>, n: int) -> (int, int) {
    if total_windows(ws, n) == 0 {
        (0, 1)
    } else {
        (corpus_grams(ws, n).len() as int, total_windows(ws, n))
    }
}

/// The n-grams named by a list of (text, position) pairs.
pub open spec fn rep_grams(ws: Seq<Seq<Seq<char>>>, n: int, reps: Seq<(usize, usize)>) -> Seq<Seq<Seq<char>>> {
    reps.map_values(|r: (usize, usize)| gram(ws[r.0 as int], r.1 as int, n))
}

/// Distinct-n over token sequences, for `n >= 1`.
pub fn distinct_n_words(texts: &[Vec<Vec<char>>], n: usize) -> (r: Fraction)
    requires
        n >= 1,
    ensures
        (r.num as int, r.den as int) == distinct_ratio(corpus_view(texts@), n as int),
{
    broadcast use vstd::seq_lib::seq_to_set_is_finite;
    let ghost ws = corpus_view(texts@);
    let mut reps: Vec<(usize, usize)> = Vec::new();
    let mut total: u128 = 0;
    let mut t: usize = 0;
    while t < texts.len()
        invariant
            n >= 1,
            ws == corpus_view(texts@),
            t <= texts@.len(),
            total == total_windows(ws.subrange(0, t as int), n as int),
            total <= t * 0xffff_ffff_ffff_ffffu128,
            forall|k: int| 0 <= k < reps@.len() ==> (#[trigger] reps@[k]).0 < t
                && reps@[k].1 + n <= ws[reps@[k].0 as int].len(),
            rep_grams(ws, n as int, reps@).no_duplicates(),
            rep_grams(ws, n as int, reps@).to_set() == grams_before(ws, n as int, t as int, 0),
        decreases texts@.len() - t,
    {
        let words = &texts[t];
        let wc = num_windows(words.as_slice(), n);
        let mut p: usize = 0;
        while p < wc
            invariant
                n >= 1,
                ws == corpus_view(texts@),
                t < texts@.len(),
                ws[t as int] == view_words(words@),
                wc == window_count(ws[t as int].len() as int, n as int),
                p <= wc,
                forall|k: int| 0 <= k < reps@.len() ==> (#[trigger] reps@[k]).0 <= t
                    && reps@[k].1 + n <= ws[reps@[k].0 as int].len(),
                rep_grams(ws, n as int, reps@).no_duplicates(),
                rep_grams(ws, n as int, reps@).to_set() == grams_before(ws, n as int, t as int, p as int),
            decreases wc - p,
        {
            let ghost old_reps = reps@;
            let ghost g = gram(ws[t as int], p as int, n as int);
            let mut found = false;
            let mut k: usize = 0;
            while k < reps.len()
                invariant
                    n >= 1,
                    ws == corpus_view(texts@),
                    t < texts@.len(),
                    ws[t as int] == view_words(words@),
                    p + n <= words@.len(),
                    reps@ == old_reps,
                    g == gram(ws[t as int], p as int, n as int),
                    forall|m: int| 0 <= m < reps@.len() ==> (#[trigger] reps@[m]).0 <= t
                        && reps@[m].1 + n <= ws[reps@[m].0 as int].len(),
                    k <= reps@.len(),
                    found == exists|m: int| 0 <= m < k && rep_grams(ws, n as int, reps@)[m] == g,
                decreases reps@.len() - k,
            {
                let (rt, rp) = reps[k];
                assert(reps@[k as int].1 + n <= ws[rt as int].len());
                assert(ws[rt as int] == view_words(texts@[rt as int]@));
                assert(rep_grams(ws, n as int, reps@)[k as int] == gram(ws[rt as int], rp as int, n as int));
                let rs = texts[rt].as_slice();
                let cs = words.as_slice();
                if same_gram(rs, rp, cs, p, n) {
                    assert(rep_grams(ws, n as int, reps@)[k as int] == g);
                    found = true;
                }
                k += 1;
            }
            let ghost before = rep_grams(ws, n as int, old_reps);
            assert(grams_before(ws, n as int, t as int, p + 1) =~= grams_before(ws, n as int, t as int, p as int).insert(g));
            if !found {
                reps.push((t, p));
                assert(rep_grams(ws, n as int, reps@) =~= before.push(g));
                proof {
                    before.lemma_push_to_set_commute(g);
                }
            } else {
                assert(before.contains(g));
                assert(grams_before(ws, n as int, t as int, p + 1) =~= grams_before(ws, n as int, t as int, p as int));
            }
            p += 1;
        }
        assert(grams_before(ws, n as int, t as int, wc as int) =~= grams_before(ws, n as int, t + 1, 0));
        assert(ws.subrange(0, t + 1).drop_last() =~= ws.subrange(0, t as int));
        assert(wc <= 0xffff_ffff_ffff_ffffu128);
        total = total + wc as u128;
        t += 1;
    }
    assert(ws.subrange(0, texts@.len() as int) =~= ws);
    assert(grams_before(ws, n as int, texts@.len() as int, 0) =~= corpus_grams(ws, n as int));
    proof {
        rep_grams(ws, n as int, reps@).unique_seq_to_set();
    }
    if total == 0 {
        Fraction { num: 0, den: 1 }
    } else {
        Fraction { num: reps.len() as u128, den: total }
    }
}

/// Splits every text of a corpus into its whitespace-separated words.
pub fn tokenize_corpus(texts: &[&str]) -> (r: Vec<Vec<Vec<char>>>)
    ensures
        corpus_view(r@) == corpus_words(texts@),
{
    let mut r: Vec<Vec<Vec<char>>> = Vec::new();
    let mut i: usize = 0;
    while i < texts.len()
        invariant
            i <= texts@.len(),
            r@.len() == i,
            corpus_view(r@) == corpus_words(texts@.subrange(0, i as int)),
        decreases texts@.len() - i,
    {
        let w = tokenize(texts[i]);
        let ghost before = r@;
        r.push(w);
        assert forall|j: int| 0 <= j < i + 1 implies #[trigger] corpus_view(r@)[j]
            == corpus_words(texts@.subrange(0, i + 1))[j] by {
            if j < i {
                assert(r@[j] == before[j]);
                assert(corpus_view(before)[j] == corpus_words(texts@.subrange(0, i as int))[j]);
            }
        }
        assert(corpus_view(r@) =~= corpus_words(texts@.subrange(0, i + 1)));
        i += 1;
    }
    assert(texts@.subrange(0, texts@.len() as int) =~= texts@);
    r
}

/// Distinct-n of a corpus: the number of distinct n-grams over the number of
/// n-gram occurrences, counted over all texts together; zero when no text has
/// `n` words. An order `n` of zero is refused.
pub fn distinct_n(responses: &[&str], n: usize) -> (r: Result<Fraction, MetricError>)
    ensures
        n == 0 ==> r == Err::<Fraction, MetricError>(MetricError::InvalidArgument),
        n >= 1 ==> r is Ok && (r->Ok_0.num as int, r->Ok_0.den as int)
            == distinct_ratio(corpus_words(responses@), n as int),
{
    if n == 0 {
        return Err(MetricError::InvalidArgument);
    }
    let texts = tokenize_corpus(responses);
    Ok(distinct_n_words(texts.as_slice(), n))
}

} // verus!
