//! A line: runs from left to right.

use vstd::prelude::*;
use crate::builder::{printed, Building, Event, TLineBuilder};
use crate::laws::lemma_text_is_printed;
use crate::parser::{
    advance, consumed, dispatched, events_of, lemma_perform_all_concat, tty_events,
};
use crate::tstring::{Run, TString};

verus! {

/// The runs that a list of strings stands for.
pub open spec fn runs_of(strings: Seq<TString>) -> Seq<Run> {
    Seq::new(strings.len(), |i: int| strings[i]@)
}

/// What a line writes when it is drawn: its runs, one after the other.
pub open spec fn rendered(runs: Seq<Run>) -> Seq<char>
    decreases runs.len(),
{
    if runs.len() == 0 {
        Seq::empty()
    } else {
        runs[0].rendered() + rendered(runs.drop_first())
    }
}

/// The text of a line without its styles: the texts of its runs, one after the
/// other.
pub open spec fn text_of(runs: Seq<Run>) -> Seq<char>
    decreases runs.len(),
{
    if runs.len() == 0 {
        Seq::empty()
    } else {
        runs[0].text + text_of(runs.drop_first())
    }
}

/// The columns that a line takes: the sum over its runs.
pub open spec fn cols_of(runs: Seq<Run>) -> nat
    decreases runs.len(),
{
    if runs.len() == 0 {
        0
    } else {
        runs[0].cols() + cols_of(runs.drop_first())
    }
}

/// What a line writes when it is drawn within `cols_max` columns. As long as
/// columns are left, the next run is drawn cut to them; once none is left,
/// nothing more is written.
pub open spec fn rendered_in(runs: Seq<Run>, cols_max: nat) -> Seq<char>
    decreases runs.len(),
{
    if runs.len() == 0 || cols_max == 0 {
        Seq::empty()
    } else {
        runs[0].clipped(cols_max).rendered() + rendered_in(
            runs.drop_first(),
            (cols_max - runs[0].cols_within(cols_max)) as nat,
        )
    }
}

/// The columns that a line takes when it is drawn within `cols_max` columns.
pub open spec fn cols_in(runs: Seq<Run>, cols_max: nat) -> nat
    decreases runs.len(),
{
    if runs.len() == 0 || cols_max == 0 {
        0
    } else {
        runs[0].cols_within(cols_max) + cols_in(
            runs.drop_first(),
            (cols_max - runs[0].cols_within(cols_max)) as nat,
        )
    }
}

/// The runs that a sequence of parser events builds.
pub open spec fn built(events: Seq<Event>) -> Seq<Run> {
    Building::start().perform_all(events).runs()
}

/// The runs that a line of output is parsed into.
pub open spec fn parsed(tty: Seq<char>) -> Seq<Run> {
    built(tty_events(tty))
}

/// A line of output as runs of one style each, in reading order. It holds
/// what colorized compiler output is made of and is no picture of a terminal.
#[derive(Debug)]
pub struct TLine {
    pub strings: Vec<TString>,
}

impl View for TLine {
    type V = Seq<Run>;

    open spec fn view(&self) -> Seq<Run> {
        runs_of(self.strings@)
    }
}

impl Default for TLine {
    fn default() -> (line: TLine)
        ensures
            line@ == Seq::<Run>::empty(),
    {
        let line = TLine { strings: Vec::new() };
        assert(line@ =~= Seq::<Run>::empty());
        line
    }
}

impl TLine {
    /// Parses one line of output. The bytes of `tty` go through the escape
    /// sequence parser one by one, and what it reports builds the runs. No
    /// input is refused: what is not understood leaves no trace, and the text
    /// of the line is what the input prints, in order.
    pub fn from_tty(tty: &str) -> (line: TLine)
        ensures
            line@ == parsed(tty@),
            text_of(line@) == printed(tty_events(tty@)),
    {
        let mut parser = vte::Parser::new();
        let mut builder = TLineBuilder::default();
        let bytes = tty.as_bytes();
        let mut i: usize = 0;
        assert(bytes@.take(0) =~= Seq::<u8>::empty());
        while i < bytes.len()
            invariant
                i <= bytes.len(),
                consumed(parser) == bytes@.take(i as int),
                builder@ == Building::start().perform_all(events_of(bytes@.take(i as int))),
            decreases bytes.len() - i,
        {
            let ghost before = bytes@.take(i as int);
            let ghost after = bytes@.take(i + 1);
            advance(&mut parser, &mut builder, bytes[i]);
            proof {
                assert(after.drop_last() =~= before);
                assert(before.push(bytes@[i as int]) =~= after);
                lemma_perform_all_concat(
                    Building::start(),
                    events_of(before),
                    dispatched(before, bytes@[i as int]),
                );
            }
            i += 1;
        }
        proof {
            assert(bytes@.take(i as int) =~= bytes@);
            lemma_text_is_printed(tty_events(tty@));
        }
        builder.to_tline()
    }

    /// Writes the line to `w`, run by run.
    pub fn draw(&self, w: &mut String)
        ensures
            final(w)@ == old(w)@ + rendered(self@),
    {
        let mut i: usize = 0;
        assert(self@.skip(0) =~= self@);
        while i < self.strings.len()
            invariant
                i <= self.strings.len(),
                w@ + rendered(self@.skip(i as int)) == old(w)@ + rendered(self@),
            decreases self.strings.len() - i,
        {
            let ghost left = self@.skip(i as int);
            let ghost before = w@;
            assert(left[0] == self.strings@[i as int]@);
            assert(left.drop_first() =~= self@.skip(i + 1));
            self.strings[i].draw(w);
            assert(w@ + rendered(left.drop_first()) =~= before + rendered(left));
            i += 1;
        }
        assert(rendered(self@.skip(i as int)) =~= Seq::<char>::empty());
        assert(w@ =~= w@ + rendered(self@.skip(i as int)));
    }

    /// Writes to `w` what of the line fits in `cols_max` columns, and returns
    /// the columns that this takes. The runs are drawn in order, each cut to
    /// the columns that are left, until none is left. With `cols_max` 0
    /// nothing is written.
    pub fn draw_in(&self, w: &mut String, cols_max: usize) -> (cols: usize)
        ensures
            final(w)@ == old(w)@ + rendered_in(self@, cols_max as nat),
            cols == cols_in(self@, cols_max as nat),
            cols <= cols_max,
            cols_max == 0 ==> cols == 0 && final(w)@ == old(w)@,
    {
        let mut cols: usize = 0;
        let mut i: usize = 0;
        assert(self@.skip(0) =~= self@);
        while i < self.strings.len() && cols < cols_max
            invariant
                i <= self.strings.len(),
                cols <= cols_max,
                w@ + rendered_in(self@.skip(i as int), (cols_max - cols) as nat) == old(w)@
                    + rendered_in(self@, cols_max as nat),
                cols + cols_in(self@.skip(i as int), (cols_max - cols) as nat) == cols_in(
                    self@,
                    cols_max as nat,
                ),
            decreases self.strings.len() - i,
        {
            let ghost left = self@.skip(i as int);
            let ghost room = (cols_max - cols) as nat;
            let ghost before = w@;
            assert(left[0] == self.strings@[i as int]@);
            assert(left.drop_first() =~= self@.skip(i + 1));
            let used: usize = self.strings[i].draw_in(w, cols_max - cols);
            assert(w@ + rendered_in(left.drop_first(), (room - used) as nat) =~= before
                + rendered_in(left, room));
            cols += used;
            i += 1;
        }
        assert(rendered_in(self@.skip(i as int), (cols_max - cols) as nat) =~= Seq::<
            char,
        >::empty());
        assert(w@ =~= w@ + rendered_in(self@.skip(i as int), (cols_max - cols) as nat));
        assert(rendered_in(self@, 0) =~= Seq::<char>::empty());
        cols
    }

    /// Whether the line's first run has exactly the style `csi` and a text
    /// that begins with `raw`. A line without runs starts with nothing.
    pub fn starts_with(&self, csi: &str, raw: &str) -> (found: bool)
        ensures
            found == (self@.len() > 0 && self@[0].style == csi@ && raw@.is_prefix_of(
                self@[0].text,
            )),
    {
        self.strings.len() > 0 && self.strings[0].starts_with(csi, raw)
    }
}

} // verus!
