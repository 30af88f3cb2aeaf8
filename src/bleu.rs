use vstd::prelude::*;
use crate::distinct::{corpus_view, corpus_words, tokenize_corpus};
use crate::ngram::{
    count_before, count_gram_before, count_in, gram, is_first, lemma_first_occurrence, ngram_counts,
    num_windows, same_gram, window_count,
};
use crate::score::{Fraction, MetricError};
use crate::tokens::{tokenize, view_words, words};

verus! {

/// The largest number of times `g` occurs in any single reference.
pub open spec fn max_ref_count(refs: Seq<Seq<Seq<char>>>, n: int, g: Seq<Seq<char>>) -> nat
    decreases refs.len(),
{
    if refs.len() == 0 {
        0
    } else {
        let prev = max_ref_count(refs.drop_last(), n, g);
        let here = count_in(refs.last(), n, g);
        if here > prev { here } else { prev }
    }
}

/// Clipped n-gram matches among the windows of `c` that start before `k`.
/// The j-th occurrence of an n-gram (counting from zero) is kept while j is
/// below the n-gram's largest count in a single reference, so each distinct
/// n-gram contributes the smaller of its count and that largest count.
pub open spec fn clipped_before(c: Seq<Seq<char>>, refs: Seq<Seq<Seq<char>>>, n: int, k: int) -> nat
    decreases k,
{
    if k <= 0 {
        0
    } else {
        let g = gram(c, k - 1, n);
        clipped_before(c, refs, n, k - 1) + if count_before(c, n, g, k - 1) < max_ref_count(refs, n, g) {
            1nat
        } else {
            0nat
        }
    }
}

/// The clipped n-gram matches of candidate `c` against `refs`.
pub open spec fn clipped(c: Seq<Seq<char>>, refs: Seq<Seq<Seq<char>>>, n: int) -> nat {
    clipped_before(c, refs, n, window_count(c.len() as int, n))
}

/// Modified precision of order `n` as `(numerator, denominator)`: clipped
/// matches over the number of candidate n-grams, `0 / 1` when there are none.
pub open spec fn precision(c: Seq<Seq<char>>, refs: Seq<Seq<Seq<char>>>, n: int) -> (int, int) {
    if window_count(c.len() as int, n) == 0 {
        (0, 1)
    } else {
        (clipped(c, refs, n) as int, window_count(c.len() as int, n))
    }
}

/// How many windows of `c` before `k` hold `g` and are kept by clipping.
pub open spec fn kept_of(c: Seq<Seq<char>>, refs: Seq<Seq<Seq<char>>>, n: int, g: Seq<Seq<char>>, k: int) -> nat
    decreases k,
{
    if k <= 0 {
        0
    } else {
        kept_of(c, refs, n, g, k - 1) + if gram(c, k - 1, n) == g && count_before(c, n, g, k - 1)
            < max_ref_count(refs, n, g) {
            1nat
        } else {
            0nat
        }
    }
}

/// Clipping keeps, of each n-gram `g` of the candidate, as many occurrences
/// as the smaller of its count and its largest count in a single reference.
pub proof fn lemma_clipping_per_ngram(c: Seq<Seq<char>>, refs: Seq<Seq<Seq<char>>>, n: int, g: Seq<Seq<char>>, k: int)
    ensures
        kept_of(c, refs, n, g, k) == if count_before(c, n, g, k) < max_ref_count(refs, n, g) {
            count_before(c, n, g, k)
        } else {
            max_ref_count(refs, n, g)
        },
    decreases k,
{
    if k > 0 {
        lemma_clipping_per_ngram(c, refs, n, g, k - 1);
    }
}

/// Distance between two lengths.
pub open spec fn len_gap(a: int, b: int) -> int {
    if a >= b { a - b } else { b - a }
}

/// The length of the reference whose length is closest to `cl`; of several
/// equally close, the first. Zero when there is no reference.
pub open spec fn closest_ref_len(cl: int, refs: Seq<Seq<Seq<char>>>) -> int
    decreases refs.len(),
{
    if refs.len() == 0 {
        0
    } else if refs.len() == 1 {
        refs[0].len() as int
    } else {
        let prev = closest_ref_len(cl, refs.drop_last());
        let last = refs.last().len() as int;
        if len_gap(last, cl) < len_gap(prev, cl) { last } else { prev }
    }
}

/// No reference counts `g` more often than the largest count.
pub proof fn lemma_max_ref_at_least(refs: Seq<Seq<Seq<char>>>, n: int, g: Seq<Seq<char>>, j: int)
    requires
        0 <= j < refs.len(),
    ensures
        count_in(refs[j], n, g) <= max_ref_count(refs, n, g),
    decreases refs.len(),
{
    if j < refs.len() - 1 {
        assert(refs.drop_last()[j] == refs[j]);
        lemma_max_ref_at_least(refs.drop_last(), n, g, j);
    }
}

/// An n-gram that no reference holds has largest count zero.
pub proof fn lemma_max_ref_zero(refs: Seq<Seq<Seq<char>>>, n: int, g: Seq<Seq<char>>)
    requires
        forall|j: int| 0 <= j < refs.len() ==> count_in(#[trigger] refs[j], n, g) == 0,
    ensures
        max_ref_count(refs, n, g) == 0,
    decreases refs.len(),
{
    if refs.len() > 0 {
        assert forall|j: int| 0 <= j < refs.drop_last().len() implies count_in(#[trigger] refs.drop_last()[j], n, g) == 0 by {
            assert(refs.drop_last()[j] == refs[j]);
        }
        lemma_max_ref_zero(refs.drop_last(), n, g);
    }
}

/// When every window before `k` is kept, all `k` count as clipped matches.
pub proof fn lemma_clipped_all(c: Seq<Seq<char>>, refs: Seq<Seq<Seq<char>>>, n: int, k: int)
    requires
        0 <= k,
        forall|i: int| 0 <= i < k ==>
            count_before(c, n, #[trigger] gram(c, i, n), i) < max_ref_count(refs, n, gram(c, i, n)),
    ensures
        clipped_before(c, refs, n, k) == k,
    decreases k,
{
    if k > 0 {
        lemma_clipped_all(c, refs, n, k - 1);
        assert(count_before(c, n, gram(c, k - 1, n), k - 1) < max_ref_count(refs, n, gram(c, k - 1, n)));
    }
}

/// When no reference holds any n-gram of the windows before `k`, there is no
/// clipped match.
pub proof fn lemma_clipped_none(c: Seq<Seq<char>>, refs: Seq<Seq<Seq<char>>>, n: int, k: int)
    requires
        forall|i: int| 0 <= i < k ==> max_ref_count(refs, n, #[trigger] gram(c, i, n)) == 0,
    ensures
        clipped_before(c, refs, n, k) == 0,
    decreases k,
{
    if k > 0 {
        lemma_clipped_none(c, refs, n, k - 1);
        assert(max_ref_count(refs, n, gram(c, k - 1, n)) == 0);
    }
}

/// The closest reference length is at least as close as every reference.
pub proof fn lemma_closest_is_closest(cl: int, refs: Seq<Seq<Seq<char>>>, j: int)
    requires
        0 <= j < refs.len(),
    ensures
        len_gap(closest_ref_len(cl, refs), cl) <= len_gap(refs[j].len() as int, cl),
    decreases refs.len(),
{
    if refs.len() > 1 && j < refs.len() - 1 {
        assert(refs.drop_last()[j] == refs[j]);
        lemma_closest_is_closest(cl, refs.drop_last(), j);
    }
}

/// How many times the n-gram of `cand` at `i` occurs in `r`, found through
/// the n-gram counts of `r`.
fn ref_count(r: &[Vec<char>], n: usize, cand: &[Vec<char>], i: usize) -> (res: usize)
    requires
        n >= 1,
        i + n <= cand@.len(),
    ensures
        res == count_in(view_words(r@), n as int, gram(view_words(cand@), i as int, n as int)),
{
    let ghost rw = view_words(r@);
    let ghost g = gram(view_words(cand@), i as int, n as int);
    let counts = ngram_counts(r, n);
    let mut k: usize = 0;
    while k < counts.len()
        invariant
            n >= 1,
            i + n <= cand@.len(),
            rw == view_words(r@),
            g == gram(view_words(cand@), i as int, n as int),
            forall|m: int| 0 <= m < counts@.len() ==> {
                &&& (#[trigger] counts@[m]).0 < window_count(r@.len() as int, n as int)
                &&& is_first(rw, n as int, counts@[m].0 as int)
                &&& counts@[m].1 == count_in(rw, n as int, gram(rw, counts@[m].0 as int, n as int))
            },
            forall|p: int| 0 <= p < window_count(r@.len() as int, n as int) && is_first(rw, n as int, p)
                ==> exists|m: int| 0 <= m < counts@.len() && counts@[m].0 == p,
            k <= counts@.len(),
            forall|m: int| 0 <= m < k ==> gram(rw, (#[trigger] counts@[m]).0 as int, n as int) != g,
        decreases counts@.len() - k,
    {
        let (start, c) = counts[k];
        if same_gram(r, start, cand, i, n) {
            return c;
        }
        k += 1;
    }
    proof {
        let wc = window_count(rw.len() as int, n as int);
        if count_in(rw, n as int, g) > 0 {
            lemma_first_occurrence(rw, n as int, g, wc);
            let j = choose|j: int| 0 <= j < wc && gram(rw, j, n as int) == g && is_first(rw, n as int, j);
            let m = choose|m: int| 0 <= m < counts@.len() && counts@[m].0 == j;
            assert(gram(rw, counts@[m].0 as int, n as int) != g);
        }
    }
    0
}

/// The largest number of times the n-gram of `cand` at `i` occurs in a
/// single reference.
fn max_count_in_refs(refs: &[Vec<Vec<char>>], n: usize, cand: &[Vec<char>], i: usize) -> (res: usize)
    requires
        n >= 1,
        i + n <= cand@.len(),
    ensures
        res == max_ref_count(corpus_view(refs@), n as int, gram(view_words(cand@), i as int, n as int)),
{
    let ghost rs = corpus_view(refs@);
    let ghost g = gram(view_words(cand@), i as int, n as int);
    let mut best: usize = 0;
    let mut j: usize = 0;
    while j < refs.len()
        invariant
            n >= 1,
            i + n <= cand@.len(),
            rs == corpus_view(refs@),
            g == gram(view_words(cand@), i as int, n as int),
            j <= refs@.len(),
            best == max_ref_count(rs.subrange(0, j as int), n as int, g),
        decreases refs@.len() - j,
    {
        let c = ref_count(refs[j].as_slice(), n, cand, i);
        assert(rs.subrange(0, j + 1).drop_last() =~= rs.subrange(0, j as int));
        assert(rs[j as int] == view_words(refs@[j as int]@));
        if c > best {
            best = c;
        }
        j += 1;
    }
    assert(rs.subrange(0, refs@.len() as int) =~= rs);
    best
}

/// Modified precision of order `n` of a candidate against references:
/// candidate n-gram counts clipped to their largest count in any single
/// reference, summed, over the number of candidate n-grams.
pub fn modified_precision(cand: &[Vec<char>], refs: &[Vec<Vec<char>>], n: usize) -> (r: Fraction)
    requires
        n >= 1,
    ensures
        (r.num as int, r.den as int) == precision(view_words(cand@), corpus_view(refs@), n as int),
{
    let ghost c = view_words(cand@);
    let ghost rs = corpus_view(refs@);
    let wc = num_windows(cand, n);
    let mut kept: usize = 0;
    let mut i: usize = 0;
    while i < wc
        invariant
            n >= 1,
            c == view_words(cand@),
            rs == corpus_view(refs@),
            wc == window_count(c.len() as int, n as int),
            i <= wc,
            kept == clipped_before(c, rs, n as int, i as int),
            kept <= i,
        decreases wc - i,
    {
        let rank = count_gram_before(cand, n, cand, i, i);
        let most = max_count_in_refs(refs, n, cand, i);
        if rank < most {
            kept += 1;
        }
        i += 1;
    }
    if wc == 0 {
        Fraction { num: 0, den: 1 }
    } else {
        Fraction { num: kept as u128, den: wc as u128 }
    }
}

/// The length of the reference closest in length to `cand_len`, the first of
/// several equally close; zero when there is no reference.
pub fn closest_reference_length(cand_len: usize, refs: &[Vec<Vec<char>>]) -> (r: usize)
    ensures
        r == closest_ref_len(cand_len as int, corpus_view(refs@)),
{
    let ghost rs = corpus_view(refs@);
    if refs.len() == 0 {
        return 0;
    }
    let mut best: usize = refs[0].len();
    let mut j: usize = 1;
    while j < refs.len()
        invariant
            rs == corpus_view(refs@),
            1 <= j <= refs@.len(),
            best == closest_ref_len(cand_len as int, rs.subrange(0, j as int)),
        decreases refs@.len() - j,
    {
        let len = refs[j].len();
        assert(rs.subrange(0, j + 1).drop_last() =~= rs.subrange(0, j as int));
        assert(rs[j as int] == view_words(refs@[j as int]@));
        let gap = if len >= cand_len { len - cand_len } else { cand_len - len };
        let best_gap = if best >= cand_len { best - cand_len } else { cand_len - best };
        if gap < best_gap {
            best = len;
        }
        j += 1;
    }
    assert(rs.subrange(0, refs@.len() as int) =~= rs);
    best
}

/// A BLEU score, held exactly.
///
/// `Zero` is the score zero. `Positive` is the score
/// `penalty * (p_1 * ... * p_N)^(1/N)` over its `N` precisions `p_k`, all
/// positive, where `penalty` is one when `candidate_len >= closest_ref_len`
/// and `exp(1 - closest_ref_len / candidate_len)` otherwise.
#[derive(Debug)]
pub enum Bleu {
    Zero,
    Positive { precisions: Vec<Fraction>, candidate_len: usize, closest_ref_len: usize },
}

/// Whether every fraction of `p` is `d / d` for some `d`.
pub open spec fn all_one(p: Seq<Fraction>) -> bool {
    forall|k: int| 0 <= k < p.len() ==> (#[trigger] p[k]).num == p[k].den
}

impl Bleu {
    /// Whether this score is exactly one: every precision is one and there
    /// is no brevity penalty.
    pub open spec fn spec_is_one(&self) -> bool {
        match self {
            Bleu::Zero => false,
            Bleu::Positive { precisions, candidate_len, closest_ref_len } => {
                &&& all_one(precisions@)
                &&& *candidate_len >= *closest_ref_len
            },
        }
    }

    /// Whether this score is exactly zero.
    pub fn is_zero(&self) -> (r: bool)
        ensures
            r == (self is Zero),
    {
        match self {
            Bleu::Zero => true,
            Bleu::Positive { .. } => false,
        }
    }

    /// Whether this score is exactly one.
    pub fn is_one(&self) -> (r: bool)
        ensures
            r == self.spec_is_one(),
    {
        match self {
            Bleu::Zero => false,
            Bleu::Positive { precisions, candidate_len, closest_ref_len } => {
                let mut k: usize = 0;
                while k < precisions.len()
                    invariant
                        *self == (Bleu::Positive {
                            precisions: *precisions,
                            candidate_len: *candidate_len,
                            closest_ref_len: *closest_ref_len,
                        }),
                        k <= precisions@.len(),
                        forall|m: int| 0 <= m < k ==> (#[trigger] precisions@[m]).num == precisions@[m].den,
                    decreases precisions@.len() - k,
                {
                    if precisions[k].num != precisions[k].den {
                        assert(precisions@[k as int].num != precisions@[k as int].den);
                        assert(!all_one(precisions@));
                        return false;
                    }
                    k += 1;
                }
                *candidate_len >= *closest_ref_len
            },
        }
    }
}

/// Whether the score is zero outright: an empty candidate, no reference, or
/// some order from 1 to `max_n` without a single clipped match.
pub open spec fn bleu_is_zero(c: Seq<Seq<char>>, refs: Seq<Seq<Seq<char>>>, max_n: int) -> bool {
    c.len() == 0 || refs.len() == 0 || exists|k: int| 1 <= k <= max_n && #[trigger] clipped(c, refs, k) == 0
}

/// Whether `b` is the BLEU score of candidate `c` against `refs` with orders
/// 1 to `max_n`.
pub open spec fn is_bleu_of(b: Bleu, c: Seq<Seq<char>>, refs: Seq<Seq<Seq<char>>>, max_n: int) -> bool {
    if bleu_is_zero(c, refs, max_n) {
        b is Zero
    } else {
        match b {
            Bleu::Zero => false,
            Bleu::Positive { precisions, candidate_len, closest_ref_len: cl } => {
                &&& precisions@.len() == max_n
                &&& forall|k: int| 0 <= k < max_n ==>
                    ((#[trigger] precisions@[k]).num as int, precisions@[k].den as int) == precision(c, refs, k + 1)
                &&& candidate_len == c.len()
                &&& cl == closest_ref_len(c.len() as int, refs)
            },
        }
    }
}

/// BLEU of a tokenized candidate against tokenized references, orders 1 to
/// `max_n`.
pub fn bleu_words(cand: &[Vec<char>], refs: &[Vec<Vec<char>>], max_n: usize) -> (r: Bleu)
    requires
        max_n >= 1,
    ensures
        is_bleu_of(r, view_words(cand@), corpus_view(refs@), max_n as int),
{
    let ghost c = view_words(cand@);
    let ghost rs = corpus_view(refs@);
    if cand.len() == 0 || refs.len() == 0 {
        return Bleu::Zero;
    }
    let mut precisions: Vec<Fraction> = Vec::new();
    let mut k: usize = 0;
    while k < max_n
        invariant
            k <= max_n,
            c == view_words(cand@),
            rs == corpus_view(refs@),
            precisions@.len() == k,
            forall|m: int| 0 <= m < k ==>
                ((#[trigger] precisions@[m]).num as int, precisions@[m].den as int) == precision(c, rs, m + 1),
            forall|m: int| 0 <= m < k ==> #[trigger] clipped(c, rs, m + 1) != 0,
        decreases max_n - k,
    {
        let p = modified_precision(cand, refs, k + 1);
        if p.num == 0 {
            assert(clipped(c, rs, k + 1) == 0);
            return Bleu::Zero;
        }
        precisions.push(p);
        k += 1;
    }
    proof {
        assert forall|j: int| 1 <= j <= max_n implies #[trigger] clipped(c, rs, j) != 0 by {
            assert(clipped(c, rs, (j - 1) + 1) != 0);
        }
    }
    let closest = closest_reference_length(cand.len(), refs);
    Bleu::Positive { precisions, candidate_len: cand.len(), closest_ref_len: closest }
}

/// BLEU of `candidate` against `references` with n-gram orders 1 to `max_n`,
/// over whitespace-separated words. The score is zero for an empty candidate,
/// for no reference, and whenever some order has no clipped match. An order
/// `max_n` of zero is refused.
pub fn bleu(candidate: &str, references: &[&str], max_n: usize) -> (r: Result<Bleu, MetricError>)
    ensures
        max_n == 0 ==> r is Err && r->Err_0 == MetricError::InvalidArgument,
        max_n >= 1 ==> r is Ok && is_bleu_of(r->Ok_0, words(candidate@), corpus_words(references@), max_n as int),
{
    if max_n == 0 {
        return Err(MetricError::InvalidArgument);
    }
    let cand = tokenize(candidate);
    let refs = tokenize_corpus(references);
    Ok(bleu_words(cand.as_slice(), refs.as_slice(), max_n))
}

} // verus!
