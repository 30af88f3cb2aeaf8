use vstd::prelude::*;
use crate::tokens::view_words;

verus! {

/// Number of windows of length `n` in a sequence of length `len`.
pub open spec fn window_count(len: int, n: int) -> int {
    if len >= n { len - n + 1 } else { 0 }
}

/// The n-gram of `w` that starts at position `i`.
pub open spec fn gram(w: Seq<Seq<char>>, i: int, n: int) -> Seq<Seq<char>> {
    w.subrange(i, i + n)
}

/// How many of the windows of `w` that start before `k` equal `g`.
pub open spec fn count_before(w: Seq<Seq<char>>, n: int, g: Seq<Seq<char>>, k: int) -> nat
    decreases k,
{
    if k <= 0 {
        0
    } else {
        count_before(w, n, g, k - 1) + if gram(w, k - 1, n) == g { 1nat } else { 0nat }
    }
}

/// How many times `g` occurs in `w` as an n-gram.
pub open spec fn count_in(w: Seq<Seq<char>>, n: int, g: Seq<Seq<char>>) -> nat {
    count_before(w, n, g, window_count(w.len() as int, n))
}

/// Whether the window at `i` is the first occurrence of its n-gram.
pub open spec fn is_first(w: Seq<Seq<char>>, n: int, i: int) -> bool {
    count_before(w, n, gram(w, i, n), i) == 0
}

/// An n-gram that occurs before `k` has a first occurrence before `k`.
pub proof fn lemma_first_occurrence(w: Seq<Seq<char>>, n: int, g: Seq<Seq<char>>, k: int)
    requires
        count_before(w, n, g, k) > 0,
    ensures
        exists|j: int| 0 <= j < k && gram(w, j, n) == g && is_first(w, n, j),
    decreases k,
{
    if count_before(w, n, g, k - 1) > 0 {
        lemma_first_occurrence(w, n, g, k - 1);
    } else {
        assert(gram(w, k - 1, n) == g && is_first(w, n, k - 1));
    }
}

/// An n-gram that no window before `k` equals has count zero before `k`.
pub proof fn lemma_count_zero(w: Seq<Seq<char>>, n: int, g: Seq<Seq<char>>, k: int)
    requires
        forall|i: int| 0 <= i < k ==> gram(w, i, n) != g,
    ensures
        count_before(w, n, g, k) == 0,
    decreases k,
{
    if k > 0 {
        lemma_count_zero(w, n, g, k - 1);
    }
}

/// The occurrences of `g` before a window that equals `g` are fewer than
/// those before any later bound.
pub proof fn lemma_count_before_lt(w: Seq<Seq<char>>, n: int, g: Seq<Seq<char>>, i: int, k: int)
    requires
        0 <= i < k,
        gram(w, i, n) == g,
    ensures
        count_before(w, n, g, i) < count_before(w, n, g, k),
    decreases k,
{
    if i < k - 1 {
        lemma_count_before_lt(w, n, g, i, k - 1);
    }
}

/// Whether two words are the same.
pub(crate) fn same_word(a: &Vec<char>, b: &Vec<char>) -> (r: bool)
    ensures
        r == (a@ == b@),
{
    if a.len() != b.len() {
        return false;
    }
    let mut i: usize = 0;
    while i < a.len()
        invariant
            a@.len() == b@.len(),
            i <= a@.len(),
            forall|j: int| 0 <= j < i ==> a@[j] == b@[j],
        decreases a@.len() - i,
    {
        if a[i] != b[i] {
            return false;
        }
        i += 1;
    }
    assert(a@ =~= b@);
    true
}

/// Whether the n-gram of `a` at `i` equals the n-gram of `b` at `j`.
pub fn same_gram(a: &[Vec<char>], i: usize, b: &[Vec<char>], j: usize, n: usize) -> (r: bool)
    requires
        i + n <= a@.len(),
        j + n <= b@.len(),
    ensures
        r == (gram(view_words(a@), i as int, n as int) == gram(view_words(b@), j as int, n as int)),
{
    let ghost wa = view_words(a@);
    let ghost wb = view_words(b@);
    let alen: usize = a.len();
    let blen: usize = b.len();
    let mut k: usize = 0;
    while k < n
        invariant
            i + n <= a@.len(),
            j + n <= b@.len(),
            alen == a@.len(),
            blen == b@.len(),
            wa == view_words(a@),
            wb == view_words(b@),
            k <= n,
            forall|m: int| 0 <= m < k ==> #[trigger] gram(wa, i as int, n as int)[m] == gram(wb, j as int, n as int)[m],
        decreases n - k,
    {
        if !same_word(&a[i + k], &b[j + k]) {
            assert(gram(wa, i as int, n as int)[k as int] != gram(wb, j as int, n as int)[k as int]);
            return false;
        }
        k += 1;
    }
    assert(gram(wa, i as int, n as int) =~= gram(wb, j as int, n as int));
    true
}

/// How many of the windows of `words` that start before `limit` equal the
/// n-gram of `src` at `j`.
pub fn count_gram_before(words: &[Vec<char>], n: usize, src: &[Vec<char>], j: usize, limit: usize) -> (r: usize)
    requires
        n >= 1,
        j + n <= src@.len(),
        limit <= window_count(words@.len() as int, n as int),
    ensures
        r == count_before(view_words(words@), n as int, gram(view_words(src@), j as int, n as int), limit as int),
        r <= limit,
{
    let ghost w = view_words(words@);
    let ghost g = gram(view_words(src@), j as int, n as int);
    let mut cnt: usize = 0;
    let mut i: usize = 0;
    while i < limit
        invariant
            n >= 1,
            j + n <= src@.len(),
            w == view_words(words@),
            g == gram(view_words(src@), j as int, n as int),
            limit <= window_count(w.len() as int, n as int),
            i <= limit,
            cnt == count_before(w, n as int, g, i as int),
            cnt <= i,
        decreases limit - i,
    {
        if same_gram(words, i, src, j, n) {
            cnt += 1;
        }
        i += 1;
    }
    cnt
}

/// Number of windows of length `n` in `words`.
pub fn num_windows(words: &[Vec<char>], n: usize) -> (r: usize)
    requires
        n >= 1,
    ensures
        r == window_count(words@.len() as int, n as int),
{
    if words.len() >= n { words.len() - n + 1 } else { 0 }
}

/// The n-gram counts of `words`: one entry for each distinct n-gram, at the
/// position of its first occurrence and with the number of times it occurs.
/// Entries come in the order of those first occurrences.
pub fn ngram_counts(words: &[Vec<char>], n: usize) -> (r: Vec<(usize, usize)>)
    requires
        n >= 1,
    ensures
        forall|k: int| 0 <= k < r@.len() ==> {
            &&& r@[k].0 < window_count(words@.len() as int, n as int)
            &&& is_first(view_words(words@), n as int, r@[k].0 as int)
            &&& r@[k].1 == count_in(view_words(words@), n as int, gram(view_words(words@), r@[k].0 as int, n as int))
        },
        forall|k1: int, k2: int| 0 <= k1 < k2 < r@.len() ==> r@[k1].0 < r@[k2].0,
        forall|i: int| 0 <= i < window_count(words@.len() as int, n as int)
            && is_first(view_words(words@), n as int, i)
            ==> exists|k: int| 0 <= k < r@.len() && r@[k].0 == i,
{
    let ghost w = view_words(words@);
    let mut r: Vec<(usize, usize)> = Vec::new();
    let total = num_windows(words, n);
    let mut i: usize = 0;
    while i < total
        invariant
            n >= 1,
            w == view_words(words@),
            total == window_count(w.len() as int, n as int),
            i <= total,
            forall|k: int| 0 <= k < r@.len() ==> {
                &&& r@[k].0 < i
                &&& is_first(w, n as int, r@[k].0 as int)
                &&& r@[k].1 == count_in(w, n as int, gram(w, r@[k].0 as int, n as int))
            },
            forall|k1: int, k2: int| 0 <= k1 < k2 < r@.len() ==> r@[k1].0 < r@[k2].0,
            forall|p: int| 0 <= p < i && is_first(w, n as int, p)
                ==> exists|k: int| 0 <= k < r@.len() && r@[k].0 == p,
        decreases total - i,
    {
        let before = count_gram_before(words, n, words, i, i);
        let ghost old_r = r@;
        if before == 0 {
            let c = count_gram_before(words, n, words, i, total);
            r.push((i, c));
            assert(r@[r@.len() - 1].0 == i);
        }
        assert forall|p: int| 0 <= p < i + 1 && is_first(w, n as int, p)
            implies exists|k: int| 0 <= k < r@.len() && r@[k].0 == p by {
            if p < i {
                let k = choose|k: int| 0 <= k < old_r.len() && old_r[k].0 == p;
                assert(r@[k] == old_r[k]);
            } else {
                assert(r@[r@.len() - 1].0 == i);
            }
        }
        i += 1;
    }
    r
}

} // verus!
