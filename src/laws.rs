//! General properties of the metrics, proved over their specifications.
use vstd::prelude::*;
use crate::bleu::{
    bleu_is_zero, clipped, closest_ref_len, is_bleu_of, lemma_clipped_all, lemma_clipped_none,
    lemma_closest_is_closest, lemma_max_ref_at_least, lemma_max_ref_zero, len_gap, max_ref_count, precision,
    Bleu,
};
use crate::distinct::{corpus_words, distinct_ratio, total_windows};
use crate::diversity::{is_self_bleu_of, lemma_pairs_in_range, pair_similarity, pairs_from};
use crate::jaccard::{jaccard_of, word_set};
use crate::ngram::{count_before, count_in, gram, lemma_count_before_lt, lemma_count_zero, window_count};
use crate::tokens::words;

verus! {

/// A text is exactly as similar to itself as can be: its Jaccard similarity
/// with itself is one, also when it holds no word.
pub proof fn jaccard_reflexive(t: Seq<char>)
    ensures
        jaccard_of(word_set(t), word_set(t)).0 == jaccard_of(word_set(t), word_set(t)).1,
        jaccard_of(word_set(t), word_set(t)).1 > 0,
{
    let s = word_set(t);
    assert(s.intersect(s) =~= s);
    assert(s + s =~= s);
}

/// Jaccard similarity does not depend on the order of its two texts.
pub proof fn jaccard_symmetric(a: Seq<char>, b: Seq<char>)
    ensures
        jaccard_of(word_set(a), word_set(b)) == jaccard_of(word_set(b), word_set(a)),
{
    assert(word_set(a).intersect(word_set(b)) =~= word_set(b).intersect(word_set(a)));
    assert(word_set(a) + word_set(b) =~= word_set(b) + word_set(a));
}

/// Two texts without a common word, not both empty, have Jaccard similarity
/// zero.
pub proof fn jaccard_disjoint(a: Seq<char>, b: Seq<char>)
    requires
        word_set(a).disjoint(word_set(b)),
        word_set(a).len() > 0 || word_set(b).len() > 0,
    ensures
        jaccard_of(word_set(a), word_set(b)).0 == 0,
        jaccard_of(word_set(a), word_set(b)).1 > 0,
{
    broadcast use vstd::seq_lib::seq_to_set_is_finite;
    let sa = word_set(a);
    let sb = word_set(b);
    assert(sa.intersect(sb) =~= Set::empty());
    vstd::set_lib::lemma_len_subset(sa, sa + sb);
    vstd::set_lib::lemma_len_subset(sb, sa + sb);
}

/// In a corpus of identical texts every pair has Jaccard similarity one, so
/// the pairwise Jaccard diversity is zero.
pub proof fn pairwise_identical(texts: Seq<&str>)
    requires
        texts.len() <= usize::MAX,
        forall|i: int| 0 <= i < texts.len() ==> (#[trigger] texts[i])@ == texts[0]@,
    ensures
        forall|k: int| 0 <= k < pairs_from(0, texts.len() as int).len() ==> {
            &&& (#[trigger] pair_similarity(corpus_words(texts), pairs_from(0, texts.len() as int)[k])).0
                == pair_similarity(corpus_words(texts), pairs_from(0, texts.len() as int)[k]).1
            &&& pair_similarity(corpus_words(texts), pairs_from(0, texts.len() as int)[k]).1 > 0
        },
{
    let ws = corpus_words(texts);
    let ps = pairs_from(0, texts.len() as int);
    lemma_pairs_in_range(0, texts.len() as int);
    jaccard_reflexive(texts[0]@);
    assert forall|k: int| 0 <= k < ps.len() implies {
        &&& (#[trigger] pair_similarity(ws, ps[k])).0 == pair_similarity(ws, ps[k]).1
        &&& pair_similarity(ws, ps[k]).1 > 0
    } by {
        let p = ps[k];
        assert(texts[p.0 as int]@ == texts[0]@);
        assert(texts[p.1 as int]@ == texts[0]@);
        assert(ws[p.0 as int] == words(texts[0]@));
        assert(ws[p.1 as int] == words(texts[0]@));
    }
}

/// In a corpus whose texts each hold a word and share no word pairwise,
/// every pair has Jaccard similarity zero, so the diversity is one.
pub proof fn pairwise_disjoint(texts: Seq<&str>)
    requires
        texts.len() <= usize::MAX,
        forall|i: int, j: int| 0 <= i < texts.len() && 0 <= j < texts.len() && i != j
            ==> word_set((#[trigger] texts[i])@).disjoint(word_set((#[trigger] texts[j])@)),
        forall|i: int| 0 <= i < texts.len() ==> word_set((#[trigger] texts[i])@).len() > 0,
    ensures
        forall|k: int| 0 <= k < pairs_from(0, texts.len() as int).len() ==> {
            &&& (#[trigger] pair_similarity(corpus_words(texts), pairs_from(0, texts.len() as int)[k])).0 == 0
            &&& pair_similarity(corpus_words(texts), pairs_from(0, texts.len() as int)[k]).1 > 0
        },
{
    let ws = corpus_words(texts);
    let ps = pairs_from(0, texts.len() as int);
    lemma_pairs_in_range(0, texts.len() as int);
    assert forall|k: int| 0 <= k < ps.len() implies {
        &&& (#[trigger] pair_similarity(ws, ps[k])).0 == 0
        &&& pair_similarity(ws, ps[k]).1 > 0
    } by {
        let p = ps[k];
        let (i, j) = (p.0 as int, p.1 as int);
        assert(word_set(texts[i]@).disjoint(word_set(texts[j]@)));
        assert(word_set(texts[i]@).len() > 0);
        jaccard_disjoint(texts[i]@, texts[j]@);
    }
}

/// A corpus of fewer than two texts has no pair: its pairwise Jaccard
/// diversity is one.
pub proof fn pairwise_small(n: int)
    requires
        0 <= n < 2,
    ensures
        pairs_from(0, n).len() == 0,
{
    if n == 1 {
        assert(pairs_from(1, 1).len() == 0);
    }
}

/// A corpus in which no text has `n` words has no n-gram window.
proof fn no_windows(ws: Seq<Seq<Seq<char>>>, n: int)
    requires
        forall|t: int| 0 <= t < ws.len() ==> (#[trigger] ws[t]).len() < n,
    ensures
        total_windows(ws, n) == 0,
    decreases ws.len(),
{
    if ws.len() > 0 {
        assert forall|t: int| 0 <= t < ws.drop_last().len() implies (#[trigger] ws.drop_last()[t]).len() < n by {
            assert(ws.drop_last()[t] == ws[t]);
        }
        no_windows(ws.drop_last(), n);
        assert(ws.last() == ws[ws.len() - 1]);
    }
}

/// A corpus in which no text has `n` words holds no n-gram: its distinct-n
/// is zero. The empty corpus is one such, for every `n`.
pub proof fn distinct_without_ngrams(ws: Seq<Seq<Seq<char>>>, n: int)
    requires
        forall|t: int| 0 <= t < ws.len() ==> (#[trigger] ws[t]).len() < n,
    ensures
        distinct_ratio(ws, n) == (0int, 1int),
{
    no_windows(ws, n);
}

/// Every precision of order 1 to `max_n` of a candidate that is one of the
/// references is one, when the candidate has at least `max_n` words; and the
/// closest reference length is the candidate's own.
proof fn exact_match_precisions(c: Seq<Seq<char>>, refs: Seq<Seq<Seq<char>>>, j: int, max_n: int)
    requires
        0 <= j < refs.len(),
        refs[j] == c,
        1 <= max_n <= c.len(),
    ensures
        forall|k: int| 1 <= k <= max_n ==> {
            &&& (#[trigger] precision(c, refs, k)).0 == precision(c, refs, k).1
            &&& precision(c, refs, k).1 > 0
            &&& clipped(c, refs, k) != 0
        },
        closest_ref_len(c.len() as int, refs) == c.len(),
{
    assert forall|k: int| 1 <= k <= max_n implies {
        &&& (#[trigger] precision(c, refs, k)).0 == precision(c, refs, k).1
        &&& precision(c, refs, k).1 > 0
        &&& clipped(c, refs, k) != 0
    } by {
        let wc = window_count(c.len() as int, k);
        assert forall|i: int| 0 <= i < wc implies
            count_before(c, k, #[trigger] gram(c, i, k), i) < max_ref_count(refs, k, gram(c, i, k)) by {
            let g = gram(c, i, k);
            lemma_count_before_lt(c, k, g, i, wc);
            lemma_max_ref_at_least(refs, k, g, j);
        }
        lemma_clipped_all(c, refs, k, wc);
    }
    lemma_closest_is_closest(c.len() as int, refs, j);
}

/// BLEU of a candidate that equals one of the references is one, when the
/// candidate has at least `max_n` words (a shorter one has no n-gram of the
/// highest order, and scores zero).
pub proof fn bleu_exact_match_is_one(b: Bleu, c: Seq<Seq<char>>, refs: Seq<Seq<Seq<char>>>, j: int, max_n: int)
    requires
        is_bleu_of(b, c, refs, max_n),
        0 <= j < refs.len(),
        refs[j] == c,
        1 <= max_n <= c.len(),
    ensures
        b.spec_is_one(),
{
    exact_match_precisions(c, refs, j, max_n);
    assert forall|k: int| 1 <= k <= max_n implies #[trigger] clipped(c, refs, k) != 0 by {
        assert(precision(c, refs, k).1 > 0);
    }
    assert(!bleu_is_zero(c, refs, max_n));
    match b {
        Bleu::Zero => {},
        Bleu::Positive { precisions, candidate_len, closest_ref_len: cl } => {
            assert forall|k: int| 0 <= k < precisions@.len() implies
                (#[trigger] precisions@[k]).num == precisions@[k].den by {
                assert(precision(c, refs, k + 1).0 == precision(c, refs, k + 1).1);
            }
        },
    }
}

/// BLEU of a candidate that shares no word with any reference is zero.
pub proof fn bleu_no_overlap_is_zero(b: Bleu, c: Seq<Seq<char>>, refs: Seq<Seq<Seq<char>>>, max_n: int)
    requires
        is_bleu_of(b, c, refs, max_n),
        max_n >= 1,
        forall|i: int, r: int| 0 <= i < c.len() && 0 <= r < refs.len() ==> !(#[trigger] refs[r]).contains(#[trigger] c[i]),
    ensures
        b is Zero,
{
    let wc = window_count(c.len() as int, 1);
    assert forall|i: int| 0 <= i < wc implies max_ref_count(refs, 1, #[trigger] gram(c, i, 1)) == 0 by {
        let g = gram(c, i, 1);
        assert forall|r: int| 0 <= r < refs.len() implies count_in(#[trigger] refs[r], 1, g) == 0 by {
            let rw = refs[r];
            assert forall|p: int| 0 <= p < window_count(rw.len() as int, 1) implies gram(rw, p, 1) != g by {
                if gram(rw, p, 1) == g {
                    assert(gram(rw, p, 1)[0] == rw[p]);
                    assert(g[0] == c[i]);
                    assert(rw.contains(c[i]));
                }
            }
            lemma_count_zero(rw, 1, g, window_count(rw.len() as int, 1));
        }
        lemma_max_ref_zero(refs, 1, g);
    }
    lemma_clipped_none(c, refs, 1, wc);
    assert(clipped(c, refs, 1) == 0);
    assert(bleu_is_zero(c, refs, max_n));
}

/// Self-BLEU of two or more identical texts of at least `max_n` words is one:
/// every text scores one against the others.
pub proof fn self_bleu_identical(scores: Seq<Bleu>, texts: Seq<&str>, max_n: int)
    requires
        is_self_bleu_of(scores, corpus_words(texts), max_n),
        texts.len() >= 2,
        forall|i: int| 0 <= i < texts.len() ==> (#[trigger] texts[i])@ == texts[0]@,
        1 <= max_n <= words(texts[0]@).len(),
    ensures
        scores.len() == texts.len(),
        forall|i: int| 0 <= i < scores.len() ==> (#[trigger] scores[i]).spec_is_one(),
{
    let ws = corpus_words(texts);
    assert forall|i: int| 0 <= i < scores.len() implies (#[trigger] scores[i]).spec_is_one() by {
        let refs = ws.remove(i);
        let j: int = if i == 0 { 1 } else { 0 };
        assert(texts[j]@ == texts[0]@);
        assert(texts[i]@ == texts[0]@);
        assert(refs[0] == ws[j]);
        assert(ws[i] == ws[j]);
        bleu_exact_match_is_one(scores[i], ws[i], refs, 0, max_n);
    }
}

/// Self-BLEU of texts that share no word pairwise is zero: every text scores
/// zero against the others.
pub proof fn self_bleu_disjoint(scores: Seq<Bleu>, texts: Seq<&str>, max_n: int)
    requires
        is_self_bleu_of(scores, corpus_words(texts), max_n),
        max_n >= 1,
        forall|i: int, j: int| 0 <= i < texts.len() && 0 <= j < texts.len() && i != j
            ==> word_set((#[trigger] texts[i])@).disjoint(word_set((#[trigger] texts[j])@)),
    ensures
        forall|i: int| 0 <= i < scores.len() ==> (#[trigger] scores[i]) is Zero,
{
    let ws = corpus_words(texts);
    assert forall|i: int| 0 <= i < scores.len() implies (#[trigger] scores[i]) is Zero by {
        let refs = ws.remove(i);
        assert forall|m: int, r: int| 0 <= m < ws[i].len() && 0 <= r < refs.len()
            implies !(#[trigger] refs[r]).contains(#[trigger] ws[i][m]) by {
            let j = if r < i { r } else { r + 1 };
            assert(refs[r] == ws[j]);
            assert(word_set(texts[i]@).disjoint(word_set(texts[j]@)));
            assert(word_set(texts[i]@).contains(ws[i][m]));
            if refs[r].contains(ws[i][m]) {
                let q = choose|q: int| 0 <= q < refs[r].len() && refs[r][q] == ws[i][m];
                assert(word_set(texts[j]@).contains(ws[i][m]));
            }
        }
        bleu_no_overlap_is_zero(scores[i], ws[i], refs, max_n);
    }
}

/// Self-BLEU of fewer than two texts has no score, and is zero.
pub proof fn self_bleu_small(scores: Seq<Bleu>, texts: Seq<&str>, max_n: int)
    requires
        is_self_bleu_of(scores, corpus_words(texts), max_n),
        texts.len() < 2,
    ensures
        scores.len() == 0,
{
}

} // verus!
