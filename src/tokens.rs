use vstd::prelude::*;

verus! {

/// Whether `c` is a whitespace character (the Unicode White_Space property).
pub uninterp spec fn is_space(c: char) -> bool;

/// Relies on `char::is_whitespace`: whether `c` has the Unicode White_Space property.
#[verifier::external_body]
fn is_space_char(c: char) -> (r: bool)
    ensures
        r == is_space(c),
{
    c.is_whitespace()
}

/// The words of `s` from position `i` on, where `cur` holds the characters of
/// the word being read when position `i` is reached.
pub open spec fn words_from(s: Seq<char>, i: int, cur: Seq<char>) -> Seq<Seq<char>>
    decreases s.len() - i,
{
    if i >= s.len() {
        if cur.len() > 0 { seq![cur] } else { Seq::empty() }
    } else if is_space(s[i]) {
        let done: Seq<Seq<char>> = if cur.len() > 0 { seq![cur] } else { Seq::empty() };
        done + words_from(s, i + 1, Seq::empty())
    } else {
        words_from(s, i + 1, cur.push(s[i]))
    }
}

/// The maximal runs of non-whitespace characters of `s`, in order.
pub open spec fn words(s: Seq<char>) -> Seq<Seq<char>> {
    words_from(s, 0, Seq::empty())
}

/// The words held in a vector of character vectors.
pub open spec fn view_words(v: Seq<Vec<char>>) -> Seq<Seq<char>> {
    v.map_values(|w: Vec<char>| w@)
}

/// Splits `text` into its whitespace-separated words.
pub fn tokenize(text: &str) -> (r: Vec<Vec<char>>)
    ensures
        view_words(r@) == words(text@),
{
    let len = text.unicode_len();
    let mut out: Vec<Vec<char>> = Vec::new();
    let mut cur: Vec<char> = Vec::new();
    let mut i: usize = 0;
    while i < len
        invariant
            len == text@.len(),
            i <= len,
            view_words(out@) + words_from(text@, i as int, cur@) == words(text@),
        decreases len - i,
    {
        let c = text.get_char(i);
        let ghost before = view_words(out@);
        let ghost old_cur = cur@;
        assert(text@[i as int] == c);
        if is_space_char(c) {
            assert(words_from(text@, i as int, old_cur) == (if old_cur.len() > 0 {
                seq![old_cur]
            } else {
                Seq::<Seq<char>>::empty()
            }) + words_from(text@, i + 1, Seq::empty()));
            if cur.len() > 0 {
                let ghost w = cur@;
                out.push(cur);
                cur = Vec::new();
                assert(view_words(out@) =~= before.push(w));
                assert(before + (seq![w] + words_from(text@, i + 1, Seq::empty()))
                    =~= before.push(w) + words_from(text@, i + 1, Seq::empty()));
            } else {
                assert(cur@ =~= Seq::<char>::empty());
                assert(Seq::<Seq<char>>::empty() + words_from(text@, i + 1, Seq::empty())
                    =~= words_from(text@, i + 1, Seq::empty()));
            }
        } else {
            cur.push(c);
            assert(words_from(text@, i as int, old_cur) == words_from(text@, i + 1, cur@));
        }
        i += 1;
    }
    if cur.len() > 0 {
        let ghost before = view_words(out@);
        let ghost w = cur@;
        out.push(cur);
        assert(view_words(out@) =~= before + seq![w]);
    } else {
        assert(view_words(out@) + Seq::<Seq<char>>::empty() =~= view_words(out@));
    }
    out
}

} // verus!
