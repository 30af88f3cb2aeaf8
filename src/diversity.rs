use vstd::prelude::*;
use itertools::Itertools;
use crate::bleu::{bleu, is_bleu_of, Bleu};
use crate::distinct::{corpus_view, corpus_words, tokenize_corpus};
use crate::jaccard::{jaccard_of, jaccard_words};
use crate::score::{Fraction, MetricError};

verus! {

/// The pairs `(i, j)` with `i < j < n` whose first element is `i`, by
/// increasing `j`.
pub open spec fn pair_row(i: int, n: int) -> Seq<(usize, usize)> {
    Seq::new((n - i - 1) as nat, |k: int| (i as usize, (i + 1 + k) as usize))
}

/// The pairs `(a, b)` with `i <= a < b < n`, in lexicographic order.
pub open spec fn pairs_from(i: int, n: int) -> Seq<(usize, usize)>
    decreases n - i,
{
    if i >= n {
        Seq::empty()
    } else {
        pair_row(i, n) + pairs_from(i + 1, n)
    }
}

/// Every listed pair is ordered and in range.
pub proof fn lemma_pairs_in_range(i: int, n: int)
    requires
        0 <= i,
        n <= usize::MAX,
    ensures
        forall|k: int| 0 <= k < pairs_from(i, n).len() ==> {
            &&& i <= (#[trigger] pairs_from(i, n)[k]).0
            &&& pairs_from(i, n)[k].0 < pairs_from(i, n)[k].1
            &&& pairs_from(i, n)[k].1 < n
        },
    decreases n - i,
{
    if i < n {
        lemma_pairs_in_range(i + 1, n);
        let row = pair_row(i, n);
        let rest = pairs_from(i + 1, n);
        assert forall|k: int| 0 <= k < pairs_from(i, n).len() implies {
            &&& i <= (#[trigger] pairs_from(i, n)[k]).0
            &&& pairs_from(i, n)[k].0 < pairs_from(i, n)[k].1
            &&& pairs_from(i, n)[k].1 < n
        } by {
            if k < row.len() {
                assert(pairs_from(i, n)[k] == row[k]);
            } else {
                assert(pairs_from(i, n)[k] == rest[k - row.len()]);
            }
        }
    }
}

/// Relies on `itertools::Itertools::combinations`: the 2-combinations of
/// `0..n`, each as an ordered pair, in lexicographic order.
#[verifier::external_body]
fn index_pairs(n: usize) -> (r: Vec<(usize, usize)>)
    ensures
        r@ == pairs_from(0, n as int),
{
    (0..n).combinations(2).map(|c| (c[0], c[1])).collect()
}

/// Jaccard similarity of the word sets of texts `i` and `j`.
pub open spec fn pair_similarity(ws: Seq<Seq<Seq<char>>>, p: (usize, usize)) -> (int, int) {
    jaccard_of(ws[p.0 as int].to_set(), ws[p.1 as int].to_set())
}

/// Pairwise Jaccard diversity, held exactly: one minus the mean of the
/// similarities of every unordered pair of texts, and one when there is no
/// pair.
#[derive(Debug)]
pub struct PairwiseDiversity {
    pub similarities: Vec<Fraction>,
}

/// The Jaccard similarity of every unordered pair of distinct texts of a
/// corpus, pairs `(i, j)` with `i < j` in lexicographic order. The diversity
/// is one minus the mean of these similarities, and one for fewer than two
/// texts.
pub fn pairwise_jaccard_diversity(responses: &[&str]) -> (r: PairwiseDiversity)
    ensures
        r.similarities@.len() == pairs_from(0, responses@.len() as int).len(),
        forall|k: int| 0 <= k < r.similarities@.len() ==>
            ((#[trigger] r.similarities@[k]).num as int, r.similarities@[k].den as int)
                == pair_similarity(corpus_words(responses@), pairs_from(0, responses@.len() as int)[k]),
{
    let ghost ws = corpus_words(responses@);
    let texts = tokenize_corpus(responses);
    let pairs = index_pairs(responses.len());
    proof {
        lemma_pairs_in_range(0, responses@.len() as int);
    }
    assert(corpus_view(texts@).len() == texts@.len());
    assert(ws.len() == responses@.len());
    let mut similarities: Vec<Fraction> = Vec::new();
    let mut k: usize = 0;
    while k < pairs.len()
        invariant
            ws == corpus_words(responses@),
            corpus_view(texts@) == ws,
            texts@.len() == responses@.len(),
            pairs@ == pairs_from(0, responses@.len() as int),
            forall|m: int| 0 <= m < pairs@.len() ==> {
                &&& (#[trigger] pairs@[m]).0 < pairs@[m].1
                &&& pairs@[m].1 < responses@.len()
            },
            k <= pairs@.len(),
            similarities@.len() == k,
            forall|m: int| 0 <= m < k ==>
                ((#[trigger] similarities@[m]).num as int, similarities@[m].den as int)
                    == pair_similarity(ws, pairs@[m]),
        decreases pairs@.len() - k,
    {
        let (i, j) = pairs[k];
        assert(pairs@[k as int].0 < pairs@[k as int].1);
        let s = jaccard_words(texts[i].as_slice(), texts[j].as_slice());
        similarities.push(s);
        k += 1;
    }
    PairwiseDiversity { similarities }
}

/// Whether `scores` are the per-text BLEU scores of self-BLEU over the
/// tokenized corpus `ws`: each text scored against all the others, and no
/// score for fewer than two texts.
pub open spec fn is_self_bleu_of(scores: Seq<Bleu>, ws: Seq<Seq<Seq<char>>>, max_n: int) -> bool {
    if ws.len() < 2 {
        scores.len() == 0
    } else {
        &&& scores.len() == ws.len()
        &&& forall|i: int| 0 <= i < ws.len() ==> is_bleu_of(#[trigger] scores[i], ws[i], ws.remove(i), max_n)
    }
}

/// The texts of a corpus other than the one at `i`, in order.
fn others<'a>(texts: &[&'a str], i: usize) -> (r: Vec<&'a str>)
    requires
        i < texts@.len(),
    ensures
        r@ == texts@.remove(i as int),
{
    let mut r: Vec<&str> = Vec::new();
    let mut j: usize = 0;
    while j < texts.len()
        invariant
            i < texts@.len(),
            j <= texts@.len(),
            r@ == (if j <= i { texts@.subrange(0, j as int) } else { texts@.remove(i as int).subrange(0, j - 1) }),
        decreases texts@.len() - j,
    {
        if j != i {
            r.push(texts[j]);
        }
        proof {
            if j < i {
                assert(r@ =~= texts@.subrange(0, j + 1));
            } else if j == i {
                assert(r@ =~= texts@.remove(i as int).subrange(0, j as int));
            } else {
                assert(r@ =~= texts@.remove(i as int).subrange(0, j as int));
            }
        }
        j += 1;
    }
    assert(r@ =~= texts@.remove(i as int));
    r
}

/// The BLEU score of each text against all the other texts, orders 1 to
/// `max_n`. Self-BLEU is the mean of these scores, and zero for fewer than
/// two texts (no score). An order `max_n` of zero is refused.
pub fn self_bleu(responses: &[&str], max_n: usize) -> (r: Result<Vec<Bleu>, MetricError>)
    ensures
        max_n == 0 ==> r is Err && r->Err_0 == MetricError::InvalidArgument,
        max_n >= 1 ==> r is Ok && is_self_bleu_of(r->Ok_0@, corpus_words(responses@), max_n as int),
{
    if max_n == 0 {
        return Err(MetricError::InvalidArgument);
    }
    let ghost ws = corpus_words(responses@);
    let mut scores: Vec<Bleu> = Vec::new();
    if responses.len() < 2 {
        return Ok(scores);
    }
    let mut i: usize = 0;
    while i < responses.len()
        invariant
            max_n >= 1,
            ws == corpus_words(responses@),
            i <= responses@.len(),
            scores@.len() == i,
            forall|m: int| 0 <= m < i ==> is_bleu_of(#[trigger] scores@[m], ws[m], ws.remove(m), max_n as int),
        decreases responses@.len() - i,
    {
        let refs = others(responses, i);
        let b = bleu(responses[i], refs.as_slice(), max_n);
        assert(corpus_words(responses@.remove(i as int)) =~= ws.remove(i as int));
        match b {
            Ok(score) => {
                scores.push(score);
            },
            Err(_) => {
                assert(false);
            },
        }
        i += 1;
    }
    Ok(scores)
}

/// The per-text BLEU scores of self-BLEU, as `self_bleu` gives them; the
/// self-BLEU diversity is one minus their mean (one for fewer than two
/// texts). An order `max_n` of zero is refused.
pub fn self_bleu_diversity(responses: &[&str], max_n: usize) -> (r: Result<Vec<Bleu>, MetricError>)
    ensures
        max_n == 0 ==> r is Err && r->Err_0 == MetricError::InvalidArgument,
        max_n >= 1 ==> r is Ok && is_self_bleu_of(r->Ok_0@, corpus_words(responses@), max_n as int),
{
    self_bleu(responses, max_n)
}

} // verus!
