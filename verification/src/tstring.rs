//! One run of a line: a style and the text that it styles.

use vstd::prelude::*;
use vstd::utf8::*;
use crate::columns::{
    count_fitting, fit, fit_len, fitted, lemma_fitted_is_longest, lemma_text_cols_concat,
    tabs_expanded, text_cols,
};
use crate::style::{csi_text, format_param, joined, CSI_RESET};
use crate::text::{lemma_encode_injective, lemma_split_at_chars, str_eq, str_starts_with};

verus! {

/// What a run is: the escape text that switches its style on, empty where it
/// has no style, and the characters that it shows.
pub struct Run {
    pub style: Seq<char>,
    pub text: Seq<char>,
}

impl Run {
    /// The run without style and without text.
    pub open spec fn blank() -> Run {
        Run { style: Seq::empty(), text: Seq::empty() }
    }

    /// What drawing the run writes: the text alone where the run has no
    /// style, else the style, the text and the reset.
    pub open spec fn rendered(self) -> Seq<char> {
        if self.style.len() == 0 {
            self.text
        } else {
            self.style + self.text + CSI_RESET@
        }
    }

    /// The run cut to what fits in `cols_max` columns, as it is drawn there:
    /// with two spaces for each tab.
    pub open spec fn clipped(self, cols_max: nat) -> Run {
        Run { style: self.style, text: tabs_expanded(fitted(self.text, cols_max)) }
    }

    /// The columns that the run's text takes.
    pub open spec fn cols(self) -> nat {
        text_cols(self.text)
    }

    /// The columns that the run takes when it is cut to `cols_max` columns.
    pub open spec fn cols_within(self, cols_max: nat) -> nat {
        text_cols(fitted(self.text, cols_max))
    }
}

/// A text in one style. `csi` holds the escape sequences that switch the
/// style on, as they are written to a terminal, and is empty for plain text.
#[derive(Debug)]
pub struct TString {
    pub csi: String,
    pub raw: String,
}

impl View for TString {
    type V = Run;

    open spec fn view(&self) -> Run {
        Run { style: self.csi@, text: self.raw@ }
    }
}

impl Default for TString {
    fn default() -> (ts: TString)
        ensures
            ts@ == Run::blank(),
    {
        TString { csi: String::new(), raw: String::new() }
    }
}

impl TString {
    /// Appends to the style the control sequence with these parameters and
    /// this final character. The text stays as it is.
    pub fn push_csi(&mut self, params: &[i64], action: char)
        ensures
            final(self)@.style == old(self)@.style + csi_text(params@, action),
            final(self)@.text == old(self)@.text,
    {
        self.csi.push('\u{1b}');
        self.csi.push('[');
        let ghost head = old(self).csi@ + seq!['\u{1b}', '['];
        assert(self.csi@ =~= head);
        assert(params@.skip(0) =~= params@);
        let mut idx: usize = 0;
        while idx < params.len()
            invariant
                idx <= params.len(),
                self.raw@ == old(self).raw@,
                self.csi@ + joined(params@.skip(idx as int)) == head + joined(params@),
            decreases params.len() - idx,
        {
            let ghost left = params@.skip(idx as int);
            let ghost before = self.csi@;
            assert(left[0] == params@[idx as int]);
            assert(left.drop_first() =~= params@.skip(idx + 1));
            let text = format_param(params[idx]);
            self.csi.append(text.as_str());
            if idx < params.len() - 1 {
                self.csi.push(';');
            }
            assert(self.csi@ + joined(left.drop_first()) =~= before + joined(left));
            idx += 1;
        }
        assert(self.csi@ =~= head + joined(params@));
        self.csi.push(action);
        assert(self.csi@ =~= old(self).csi@ + csi_text(params@, action));
    }

    /// Writes the run to `w`: its text, between its style and the reset where
    /// it has a style.
    pub fn draw(&self, w: &mut String)
        ensures
            final(w)@ == old(w)@ + self@.rendered(),
    {
        if self.csi.as_str().is_empty() {
            w.append(self.raw.as_str());
        } else {
            w.append(self.csi.as_str());
            w.append(self.raw.as_str());
            w.append(CSI_RESET);
            assert(w@ =~= old(w)@ + (self.csi@ + self.raw@ + CSI_RESET@));
        }
    }

    /// Writes to `w` as much of the run as fits in `cols_max` columns, with
    /// two spaces for each tab, and returns the columns that this takes. A
    /// character that would straddle the limit is left out whole. The style
    /// and the reset are written even where no character fits.
    pub fn draw_in(&self, w: &mut String, cols_max: usize) -> (cols: usize)
        ensures
            final(w)@ == old(w)@ + self@.clipped(cols_max as nat).rendered(),
            cols == self@.cols_within(cols_max as nat),
            cols <= cols_max,
    {
        proof {
            lemma_fitted_is_longest(self.raw@, cols_max as nat);
        }
        let shown = fit(self.raw.as_str(), cols_max);
        if self.csi.as_str().is_empty() {
            w.append(shown.0.as_str());
        } else {
            w.append(self.csi.as_str());
            w.append(shown.0.as_str());
            w.append(CSI_RESET);
            assert(w@ =~= old(w)@ + (self.csi@ + shown.0@ + CSI_RESET@));
        }
        shown.1
    }

    /// Whether the run has exactly the style `csi` and a text that begins
    /// with `raw`.
    pub fn starts_with(&self, csi: &str, raw: &str) -> (found: bool)
        ensures
            found == (self@.style == csi@ && raw@.is_prefix_of(self@.text)),
    {
        str_eq(self.csi.as_str(), csi) && str_starts_with(self.raw.as_str(), raw)
    }

    /// Cuts the run at column `at`: the run keeps what fits in `at` columns,
    /// and the rest is returned as a run of the same style. A character that
    /// would straddle the column goes to the rest whole, so the part that
    /// stays is never wider than `at`.
    pub fn split_off(&mut self, at: usize) -> (tail: TString)
        ensures
            final(self)@.style == old(self)@.style,
            tail@.style == old(self)@.style,
            final(self)@.text == fitted(old(self)@.text, at as nat),
            tail@.text == old(self)@.text.skip(fit_len(old(self)@.text, at as nat) as int),
            final(self)@.text + tail@.text == old(self)@.text,
            final(self)@.cols() + tail@.cols() == old(self)@.cols(),
            final(self)@.cols() <= at,
    {
        let ghost whole = self.raw@;
        let ghost kept = fit_len(whole, at as nat) as int;
        proof {
            lemma_fitted_is_longest(whole, at as nat);
            lemma_split_at_chars(whole, kept);
        }
        let counts = count_fitting(self.raw.as_str(), at);
        let raw = self.raw.split_off(counts.0);
        proof {
            lemma_encode_injective(self.raw@, whole.take(kept));
            lemma_encode_injective(raw@, whole.skip(kept));
            assert(whole.take(kept) + whole.skip(kept) =~= whole);
            lemma_text_cols_concat(whole.take(kept), whole.skip(kept));
        }
        TString { csi: self.csi.clone(), raw }
    }
}

} // verus!
