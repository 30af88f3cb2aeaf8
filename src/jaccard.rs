use vstd::prelude::*;
use crate::score::Fraction;
use crate::tokens::{tokenize, view_words, words};

verus! {

/// The set of distinct words of a text.
pub open spec fn word_set(s: Seq<char>) -> Set<Seq<char>> {
    words(s).to_set()
}

/// Jaccard similarity of two sets as `(numerator, denominator)`:
/// `|a ∩ b| / |a ∪ b|`, and `1 / 1` when both sets are empty.
pub open spec fn jaccard_of(a: Set<Seq<char>>, b: Set<Seq<char>>) -> (int, int) {
    if (a + b).len() == 0 {
        (1, 1)
    } else {
        (a.intersect(b).len() as int, (a + b).len() as int)
    }
}

/// The words of `w` at the positions listed in `idx`.
pub open spec fn picked(w: Seq<Seq<char>>, idx: Seq<usize>) -> Seq<Seq<char>> {
    idx.map_values(|k: usize| w[k as int])
}

/// Whether `x` is one of the words of `b`.
pub fn has_word(b: &[Vec<char>], x: &Vec<char>) -> (r: bool)
    ensures
        r == view_words(b@).contains(x@),
{
    let mut i: usize = 0;
    while i < b.len()
        invariant
            i <= b@.len(),
            forall|j: int| 0 <= j < i ==> view_words(b@)[j] != x@,
        decreases b@.len() - i,
    {
        if crate::ngram::same_word(&b[i], x) {
            assert(view_words(b@)[i as int] == x@);
            return true;
        }
        i += 1;
    }
    false
}

/// Positions of the first occurrence of each distinct word of `a`.
fn distinct_words(a: &[Vec<char>]) -> (r: Vec<usize>)
    ensures
        forall|k: int| 0 <= k < r@.len() ==> r@[k] < a@.len(),
        picked(view_words(a@), r@).no_duplicates(),
        picked(view_words(a@), r@).to_set() == view_words(a@).to_set(),
{
    let ghost w = view_words(a@);
    let mut r: Vec<usize> = Vec::new();
    let mut i: usize = 0;
    while i < a.len()
        invariant
            w == view_words(a@),
            i <= a@.len(),
            forall|k: int| 0 <= k < r@.len() ==> r@[k] < i,
            picked(w, r@).no_duplicates(),
            picked(w, r@).to_set() == w.subrange(0, i as int).to_set(),
        decreases a@.len() - i,
    {
        let ghost old_r = r@;
        let mut seen = false;
        let mut k: usize = 0;
        while k < r.len()
            invariant
                w == view_words(a@),
                i < a@.len(),
                r@ == old_r,
                forall|m: int| 0 <= m < r@.len() ==> r@[m] < i,
                k <= r@.len(),
                seen == exists|m: int| 0 <= m < k && picked(w, r@)[m] == w[i as int],
            decreases r@.len() - k,
        {
            if crate::ngram::same_word(&a[r[k]], &a[i]) {
                assert(picked(w, r@)[k as int] == w[i as int]);
                seen = true;
            }
            k += 1;
        }
        assert(w.subrange(0, i + 1) =~= w.subrange(0, i as int).push(w[i as int]));
        if !seen {
            r.push(i);
            assert(picked(w, r@) =~= picked(w, old_r).push(w[i as int]));
            assert(!picked(w, old_r).contains(w[i as int]));
            proof {
                picked(w, old_r).lemma_push_to_set_commute(w[i as int]);
                w.subrange(0, i as int).lemma_push_to_set_commute(w[i as int]);
            }
        } else {
            assert(picked(w, r@).to_set().contains(w[i as int]));
            proof {
                w.subrange(0, i as int).lemma_push_to_set_commute(w[i as int]);
            }
            assert(w.subrange(0, i + 1).to_set() =~= w.subrange(0, i as int).to_set());
        }
        i += 1;
    }
    assert(w.subrange(0, a@.len() as int) =~= w);
    r
}

/// Jaccard similarity of the word sets of two token sequences.
pub fn jaccard_words(a: &[Vec<char>], b: &[Vec<char>]) -> (r: Fraction)
    ensures
        (r.num as int, r.den as int) == jaccard_of(view_words(a@).to_set(), view_words(b@).to_set()),
{
    broadcast use vstd::seq_lib::seq_to_set_is_finite;
    let ghost wa = view_words(a@);
    let ghost wb = view_words(b@);
    let da = distinct_words(a);
    let db = distinct_words(b);
    let ghost pa = picked(wa, da@);
    let mut inter: usize = 0;
    let ghost mut f: Seq<Seq<char>> = Seq::empty();
    let mut k: usize = 0;
    while k < da.len()
        invariant
            wa == view_words(a@),
            wb == view_words(b@),
            pa == picked(wa, da@),
            forall|m: int| 0 <= m < da@.len() ==> da@[m] < a@.len(),
            pa.no_duplicates(),
            k <= da@.len(),
            inter == f.len(),
            inter <= k,
            f.no_duplicates(),
            f.to_set() == pa.subrange(0, k as int).to_set().intersect(wb.to_set()),
        decreases da@.len() - k,
    {
        let x = &a[da[k]];
        let ghost pk = pa.subrange(0, k as int);
        assert(pa[k as int] == x@);
        assert(pa.subrange(0, k + 1) =~= pk.push(x@));
        proof {
            pk.lemma_push_to_set_commute(x@);
        }
        if has_word(b, x) {
            proof {
                if f.contains(x@) {
                    assert(f.to_set().contains(x@));
                    let m = choose|m: int| 0 <= m < pk.len() && pk[m] == x@;
                    assert(pa[m] == pa[k as int]);
                }
                f.lemma_push_to_set_commute(x@);
                assert(wb.to_set().contains(x@));
                f = f.push(x@);
                assert(f.to_set() =~= pa.subrange(0, k + 1).to_set().intersect(wb.to_set()));
            }
            inter += 1;
        } else {
            assert(!wb.to_set().contains(x@));
            assert(f.to_set() =~= pa.subrange(0, k + 1).to_set().intersect(wb.to_set()));
        }
        k += 1;
    }
    proof {
        assert(pa.subrange(0, da@.len() as int) =~= pa);
        pa.unique_seq_to_set();
        picked(wb, db@).unique_seq_to_set();
        f.unique_seq_to_set();
        vstd::set_lib::lemma_set_intersect_union_lens(wa.to_set(), wb.to_set());
        assert(da@.len() == pa.len());
        assert(db@.len() == picked(wb, db@).len());
    }
    let den: u128 = da.len() as u128 + db.len() as u128 - inter as u128;
    if den == 0 {
        Fraction { num: 1, den: 1 }
    } else {
        Fraction { num: inter as u128, den }
    }
}

/// Jaccard similarity of the sets of whitespace-separated words of two texts:
/// the size of their intersection over the size of their union, and exactly
/// one when both texts hold no word.
pub fn jaccard(s1: &str, s2: &str) -> (r: Fraction)
    ensures
        (r.num as int, r.den as int) == jaccard_of(word_set(s1@), word_set(s2@)),
{
    let a = tokenize(s1);
    let b = tokenize(s2);
    jaccard_words(a.as_slice(), b.as_slice())
}

} // verus!
