//! Display columns: how wide a text is on screen, and how much of it fits in
//! a given width.

use vstd::prelude::*;
use vstd::utf8::*;
use termimad::StrFit;

verus! {

/// The columns that termimad's `StrFit` counts for one character: two for a
/// tab, which it draws as two spaces, else the width that unicode-width gives
/// the character, and none where that gives no width.
pub uninterp spec fn char_cols(c: char) -> nat;

/// The columns that a text takes.
pub open spec fn text_cols(s: Seq<char>) -> nat
    decreases s.len(),
{
    if s.len() == 0 {
        0
    } else {
        char_cols(s[0]) + text_cols(s.drop_first())
    }
}

/// The number of leading characters of `s` that fit in `cols_max` columns:
/// those in front of the first character with which the text would be wider.
pub open spec fn fit_len(s: Seq<char>, cols_max: nat) -> nat
    decreases s.len(),
{
    if s.len() == 0 || char_cols(s[0]) > cols_max {
        0
    } else {
        1 + fit_len(s.drop_first(), (cols_max - char_cols(s[0])) as nat)
    }
}

/// The longest prefix of `s` that fits in `cols_max` columns. A character that
/// would straddle the limit stays out whole.
pub open spec fn fitted(s: Seq<char>, cols_max: nat) -> Seq<char> {
    s.take(fit_len(s, cols_max) as int)
}

/// `s` with two spaces in place of each tab.
pub open spec fn tabs_expanded(s: Seq<char>) -> Seq<char>
    decreases s.len(),
{
    if s.len() == 0 {
        Seq::empty()
    } else if s[0] == '\t' {
        seq![' ', ' '] + tabs_expanded(s.drop_first())
    } else {
        seq![s[0]] + tabs_expanded(s.drop_first())
    }
}

/// termimad's `StrFit::make_cow`: the longest prefix of `s` that fits in
/// `cols_max` columns, its tabs replaced by two spaces each, and the columns
/// that the prefix takes. The prefix is the one that is no wider than
/// `cols_max` and that ends where `s` ends or in front of a character with
/// which it would be wider.
#[verifier::external_body]
pub(crate) fn fit(s: &str, cols_max: usize) -> (shown: (String, usize))
    ensures
        forall|k: int|
            0 <= k <= s@.len() && text_cols(s@.take(k)) <= cols_max && (k < s@.len()
                ==> text_cols(s@.take(k)) + char_cols(s@[k]) > cols_max) ==> shown.0@
                == tabs_expanded(s@.take(k)) && shown.1 == text_cols(s@.take(k)),
{
    let (text, cols) = StrFit::make_cow(s, cols_max);
    (text.into_owned(), cols)
}

/// termimad's `StrFit::count_fitting`: the length in bytes of the longest
/// prefix of `s` that fits in `cols_max` columns, and the columns that the
/// prefix takes. The prefix is the one that is no wider than `cols_max` and
/// that ends where `s` ends or in front of a character with which it would be
/// wider.
#[verifier::external_body]
pub(crate) fn count_fitting(s: &str, cols_max: usize) -> (counts: (usize, usize))
    ensures
        forall|k: int|
            0 <= k <= s@.len() && text_cols(s@.take(k)) <= cols_max && (k < s@.len()
                ==> text_cols(s@.take(k)) + char_cols(s@[k]) > cols_max) ==> counts.0
                == encode_utf8(s@.take(k)).len() && counts.1 == text_cols(s@.take(k)),
{
    StrFit::count_fitting(s, cols_max)
}

/// The prefix that `fit_len` counts is no wider than the limit, and the
/// character behind it, if there is one, would make it wider.
pub proof fn lemma_fitted_is_longest(s: Seq<char>, cols_max: nat)
    ensures
        fit_len(s, cols_max) <= s.len(),
        text_cols(fitted(s, cols_max)) <= cols_max,
        fit_len(s, cols_max) < s.len() ==> text_cols(fitted(s, cols_max)) + char_cols(
            s[fit_len(s, cols_max) as int],
        ) > cols_max,
    decreases s.len(),
{
    if s.len() != 0 && char_cols(s[0]) <= cols_max {
        let rest = s.drop_first();
        let left = (cols_max - char_cols(s[0])) as nat;
        lemma_fitted_is_longest(rest, left);
        let kept = fitted(s, cols_max);
        assert(kept.drop_first() =~= fitted(rest, left));
        assert(kept[0] == s[0]);
    } else {
        assert(fitted(s, cols_max) =~= Seq::<char>::empty());
    }
}

/// A text that is no wider than the limit fits whole.
pub proof fn lemma_fits_whole(s: Seq<char>, cols_max: nat)
    requires
        text_cols(s) <= cols_max,
    ensures
        fit_len(s, cols_max) == s.len(),
        fitted(s, cols_max) == s,
    decreases s.len(),
{
    if s.len() != 0 {
        lemma_fits_whole(s.drop_first(), (cols_max - char_cols(s[0])) as nat);
    }
    assert(fitted(s, cols_max) =~= s);
}

/// The width of two texts one after the other is the sum of their widths.
pub proof fn lemma_text_cols_concat(a: Seq<char>, b: Seq<char>)
    ensures
        text_cols(a + b) == text_cols(a) + text_cols(b),
    decreases a.len(),
{
    if a.len() == 0 {
        assert(a + b =~= b);
    } else {
        lemma_text_cols_concat(a.drop_first(), b);
        assert((a + b).drop_first() =~= a.drop_first() + b);
    }
}

/// A text without tabs is drawn as it is.
pub proof fn lemma_no_tab_unchanged(s: Seq<char>)
    requires
        !s.contains('\t'),
    ensures
        tabs_expanded(s) == s,
    decreases s.len(),
{
    if s.len() != 0 {
        assert(s.contains(s[0]));
        assert forall|c: char| s.drop_first().contains(c) implies s.contains(c) by {
            let i = choose|i: int| 0 <= i < s.drop_first().len() && s.drop_first()[i] == c;
            assert(s[i + 1] == c);
        }
        lemma_no_tab_unchanged(s.drop_first());
        assert(seq![s[0]] + s.drop_first() =~= s);
    }
}

} // verus!
