//! What holds of parsing and drawing, whatever the input.

use vstd::prelude::*;
use crate::builder::{printed, Building, Event};
use crate::columns::{lemma_fits_whole, lemma_fitted_is_longest, lemma_no_tab_unchanged};
use crate::parser::tty_events;
use crate::style::{
    csi_text, decimal, digits, is_reset, joined, CSI_BOLD, CSI_BOLD_BLUE, CSI_BOLD_RED,
    CSI_BOLD_YELLOW, CSI_RESET,
};
use crate::tline::{built, cols_in, cols_of, parsed, rendered, rendered_in, text_of};
use crate::tstring::Run;

verus! {

/// Where a well-formed input stands: outside any style, in the sequences that
/// set a style up, or in the text that the style applies to.
pub enum Phase {
    Plain,
    Styling,
    Styled,
}

/// The phase after an event, or nothing where the event has no place in a
/// well-formed input: a style must be reset before another one is set.
pub open spec fn next_phase(phase: Phase, event: Event) -> Option<Phase> {
    match event {
        Event::Print(_) => Some(
            match phase {
                Phase::Plain => Phase::Plain,
                _ => Phase::Styled,
            },
        ),
        Event::Csi { params, .. } => if is_reset(params) {
            Some(Phase::Plain)
        } else {
            match phase {
                Phase::Styled => None,
                _ => Some(Phase::Styling),
            }
        },
        _ => Some(phase),
    }
}

/// Whether the events, met in this phase, keep to the grammar and leave no
/// style set at the end.
pub open spec fn well_formed_from(phase: Phase, events: Seq<Event>) -> bool
    decreases events.len(),
{
    if events.len() == 0 {
        phase is Plain
    } else {
        match next_phase(phase, events[0]) {
            Some(next) => well_formed_from(next, events.drop_first()),
            None => false,
        }
    }
}

/// Whether a whole input keeps to the grammar: plain text, and styled text
/// made of one or more sequences that set the style, the text, and a reset.
pub open spec fn well_formed(events: Seq<Event>) -> bool {
    well_formed_from(Phase::Plain, events)
}

/// The input as text, with its resets normalized: a printed character stands
/// for itself and a control sequence for its text, but a reset that ends a
/// style is written as `CSI_RESET`, and a reset where no style is set is left
/// out. What the parser ignores is left out too.
pub open spec fn normalized_from(phase: Phase, events: Seq<Event>) -> Seq<char>
    decreases events.len(),
{
    if events.len() == 0 {
        Seq::empty()
    } else {
        let first = match events[0] {
            Event::Print(c) => seq![c],
            Event::Csi { params, action, .. } => if !is_reset(params) {
                csi_text(params, action)
            } else if phase is Plain {
                Seq::empty()
            } else {
                CSI_RESET@
            },
            _ => Seq::empty(),
        };
        let next = match next_phase(phase, events[0]) {
            Some(next) => next,
            None => phase,
        };
        first + normalized_from(next, events.drop_first())
    }
}

/// The whole input as text, with its resets normalized.
pub open spec fn normalized(events: Seq<Event>) -> Seq<char> {
    normalized_from(Phase::Plain, events)
}

/// The texts of two lists of runs one after the other.
pub proof fn lemma_text_of_concat(a: Seq<Run>, b: Seq<Run>)
    ensures
        text_of(a + b) == text_of(a) + text_of(b),
    decreases a.len(),
{
    if a.len() == 0 {
        assert(a + b =~= b);
    } else {
        assert((a + b).drop_first() =~= a.drop_first() + b);
        lemma_text_of_concat(a.drop_first(), b);
    }
}

/// Two lists of runs one after the other are drawn one after the other.
pub proof fn lemma_rendered_concat(a: Seq<Run>, b: Seq<Run>)
    ensures
        rendered(a + b) == rendered(a) + rendered(b),
    decreases a.len(),
{
    if a.len() == 0 {
        assert(a + b =~= b);
    } else {
        assert((a + b).drop_first() =~= a.drop_first() + b);
        lemma_rendered_concat(a.drop_first(), b);
    }
}

proof fn lemma_text_of_push(runs: Seq<Run>, run: Run)
    ensures
        text_of(runs.push(run)) == text_of(runs) + run.text,
{
    let one = seq![run];
    assert(runs.push(run) =~= runs + one);
    lemma_text_of_concat(runs, one);
    assert(text_of(one.drop_first()) =~= Seq::<char>::empty());
    assert(text_of(one) =~= run.text);
}

proof fn lemma_rendered_push(runs: Seq<Run>, run: Run)
    ensures
        rendered(runs.push(run)) == rendered(runs) + run.rendered(),
{
    let one = seq![run];
    assert(runs.push(run) =~= runs + one);
    lemma_rendered_concat(runs, one);
    assert(rendered(one.drop_first()) =~= Seq::<char>::empty());
    assert(rendered(one) =~= run.rendered());
}

/// From any point of the building on, the text of the line grows by exactly
/// the characters that are printed.
pub proof fn lemma_text_grows_by_printed(start: Building, events: Seq<Event>)
    ensures
        text_of(start.perform_all(events).runs()) == text_of(start.runs()) + printed(events),
    decreases events.len(),
{
    if events.len() == 0 {
    } else {
        let next = start.perform(events[0]);
        lemma_text_grows_by_printed(next, events.drop_first());
        let first = match events[0] {
            Event::Print(c) => seq![c],
            _ => Seq::empty(),
        };
        assert(text_of(next.runs()) == text_of(start.runs()) + first) by {
            if start.cur is Some {
                lemma_text_of_push(start.done, start.cur->0);
            }
            if next.cur is Some {
                lemma_text_of_push(next.done, next.cur->0);
            }
        }
        assert(text_of(start.runs()) + first + printed(events.drop_first()) =~= text_of(
            start.runs(),
        ) + printed(events));
    }
}

/// The text of a parsed line, all styles left aside, is what the input
/// prints: each printed character once, in the order of the input, whatever
/// control sequences stand between them.
pub proof fn lemma_text_is_printed(events: Seq<Event>)
    ensures
        text_of(built(events)) == printed(events),
{
    lemma_text_grows_by_printed(Building::start(), events);
    assert(text_of(Building::start().runs()) =~= Seq::<char>::empty());
}

/// What has been written of the open run while it is open: its style and its
/// text, without the reset.
pub open spec fn open_text(b: Building) -> Seq<char> {
    match b.cur {
        Some(run) => run.style + run.text,
        None => Seq::empty(),
    }
}

/// The phase that a point of the building stands for.
pub open spec fn in_phase(b: Building, phase: Phase) -> bool {
    match phase {
        Phase::Plain => b.cur matches Some(run) ==> run.style.len() == 0,
        Phase::Styling => b.cur matches Some(run) && run.style.len() > 0 && run.text.len() == 0,
        Phase::Styled => b.cur matches Some(run) && run.style.len() > 0 && run.text.len() > 0,
    }
}

/// From any point of the building on, a well-formed rest of the input is
/// drawn as it was, with its resets normalized.
pub proof fn lemma_redraw_continues(start: Building, phase: Phase, events: Seq<Event>)
    requires
        in_phase(start, phase),
        well_formed_from(phase, events),
    ensures
        rendered(start.perform_all(events).runs()) == rendered(start.done) + open_text(start)
            + normalized_from(phase, events),
    decreases events.len(),
{
    if events.len() == 0 {
        match start.cur {
            Some(run) => {
                lemma_rendered_push(start.done, run);
                assert(run.rendered() =~= open_text(start));
            },
            None => {},
        }
        assert(rendered(start.runs()) =~= rendered(start.done) + open_text(start)
            + normalized_from(phase, events));
    } else {
        let next = start.perform(events[0]);
        let next_phase = next_phase(phase, events[0])->0;
        let first = match events[0] {
            Event::Print(c) => seq![c],
            Event::Csi { params, action, .. } => if !is_reset(params) {
                csi_text(params, action)
            } else if phase is Plain {
                Seq::empty()
            } else {
                CSI_RESET@
            },
            _ => Seq::empty(),
        };
        assert(in_phase(next, next_phase));
        assert(rendered(next.done) + open_text(next) == rendered(start.done) + open_text(start)
            + first) by {
            match start.cur {
                Some(run) => {
                    lemma_rendered_push(start.done, run);
                },
                None => {},
            }
            assert(rendered(next.done) + open_text(next) =~= rendered(start.done) + open_text(
                start,
            ) + first);
        }
        lemma_redraw_continues(next, next_phase, events.drop_first());
        assert(rendered(next.done) + open_text(next) + normalized_from(
            next_phase,
            events.drop_first(),
        ) =~= rendered(start.done) + open_text(start) + normalized_from(phase, events));
    }
}

/// Drawing a line that was parsed from a well-formed input writes the input
/// again: every printed character and every style sequence as the parser
/// reported it, in the same order, and `CSI_RESET` where the input reset a
/// style.
pub proof fn lemma_redraw_is_normalized_input(events: Seq<Event>)
    requires
        well_formed(events),
    ensures
        rendered(built(events)) == normalized(events),
{
    lemma_redraw_continues(Building::start(), Phase::Plain, events);
    assert(rendered(Seq::<Run>::empty()) + open_text(Building::start()) + normalized(events)
        =~= normalized(events));
}

/// Parsing a well-formed line and drawing it writes the line again, with its
/// resets normalized.
pub proof fn lemma_redraw_of_parsed(tty: Seq<char>)
    requires
        well_formed(tty_events(tty)),
    ensures
        rendered(parsed(tty)) == normalized(tty_events(tty)),
{
    lemma_redraw_is_normalized_input(tty_events(tty));
}

/// Runs that write nothing when drawn write nothing together.
proof fn lemma_rendered_silent(runs: Seq<Run>)
    requires
        forall|i: int| 0 <= i < runs.len() ==> (#[trigger] runs[i]).rendered().len() == 0,
    ensures
        rendered(runs) == Seq::<char>::empty(),
        cols_of(runs) == 0,
    decreases runs.len(),
{
    if runs.len() != 0 {
        let rest = runs.drop_first();
        assert forall|i: int| 0 <= i < rest.len() implies (#[trigger] rest[i]).rendered().len()
            == 0 by {
            assert(rest[i] == runs[i + 1]);
        }
        lemma_rendered_silent(rest);
        assert(runs[0].rendered().len() == 0);
        assert(runs[0].text =~= Seq::<char>::empty());
        assert(rendered(runs) =~= Seq::<char>::empty());
    }
}

/// With room for the whole line, drawing within columns is drawing: the same
/// is written, and the columns returned are those of the line. This holds of
/// a line without tabs, which are drawn as spaces only within columns, and
/// where the line is exactly as wide as the limit, of one whose runs behind
/// the last column write nothing.
pub proof fn lemma_draw_in_whole(runs: Seq<Run>, cols_max: nat)
    requires
        cols_of(runs) <= cols_max,
        forall|i: int| 0 <= i < runs.len() ==> !(#[trigger] runs[i]).text.contains('\t'),
        forall|i: int|
            0 <= i < runs.len() && cols_of(runs.take(i)) >= cols_max ==> (#[trigger] runs[i]).rendered().len()
                == 0,
    ensures
        rendered_in(runs, cols_max) == rendered(runs),
        cols_in(runs, cols_max) == cols_of(runs),
    decreases runs.len(),
{
    if runs.len() == 0 {
    } else if cols_max == 0 {
        assert forall|i: int| 0 <= i < runs.len() implies (#[trigger] runs[i]).rendered().len()
            == 0 by {
            assert(cols_of(runs.take(i)) >= cols_max);
        }
        lemma_rendered_silent(runs);
    } else {
        let first = runs[0];
        let rest = runs.drop_first();
        lemma_fits_whole(first.text, cols_max);
        lemma_no_tab_unchanged(first.text);
        assert(first.clipped(cols_max) == first);
        let left = (cols_max - first.cols()) as nat;
        assert forall|i: int| 0 <= i < rest.len() implies !(#[trigger] rest[i]).text.contains(
            '\t',
        ) by {
            assert(rest[i] == runs[i + 1]);
        }
        assert forall|i: int| 0 <= i < rest.len() && cols_of(rest.take(i)) >= left implies (
        #[trigger] rest[i]).rendered().len() == 0 by {
            assert(rest[i] == runs[i + 1]);
            assert(runs.take(i + 1).drop_first() =~= rest.take(i));
            assert(runs.take(i + 1)[0] == first);
        }
        lemma_draw_in_whole(rest, left);
    }
}

/// A line that is narrower than the limit and has no tabs is drawn whole
/// within the limit.
pub proof fn lemma_draw_in_with_room(runs: Seq<Run>, cols_max: nat)
    requires
        cols_of(runs) < cols_max,
        forall|i: int| 0 <= i < runs.len() ==> !(#[trigger] runs[i]).text.contains('\t'),
    ensures
        rendered_in(runs, cols_max) == rendered(runs),
        cols_in(runs, cols_max) == cols_of(runs),
{
    assert forall|i: int| 0 <= i < runs.len() implies cols_of(runs.take(i)) < cols_max by {
        lemma_cols_of_prefix(runs, i);
    }
    lemma_draw_in_whole(runs, cols_max);
}

/// A part of a line is no wider than the line.
pub proof fn lemma_cols_of_prefix(runs: Seq<Run>, i: int)
    requires
        0 <= i <= runs.len(),
    ensures
        cols_of(runs.take(i)) <= cols_of(runs),
    decreases runs.len(),
{
    if i == 0 {
        assert(runs.take(0) =~= Seq::<Run>::empty());
    } else {
        assert(runs.take(i).drop_first() =~= runs.drop_first().take(i - 1));
        assert(runs.take(i)[0] == runs[0]);
        lemma_cols_of_prefix(runs.drop_first(), i - 1);
    }
}

/// What is drawn within columns never takes more columns than the limit.
pub proof fn lemma_cols_in_bound(runs: Seq<Run>, cols_max: nat)
    ensures
        cols_in(runs, cols_max) <= cols_max,
    decreases runs.len(),
{
    if runs.len() != 0 && cols_max != 0 {
        lemma_fitted_is_longest(runs[0].text, cols_max);
        lemma_cols_in_bound(runs.drop_first(), (cols_max - runs[0].cols_within(cols_max)) as nat);
    }
}

/// Once a run has text its style is sealed: whatever event follows, the run
/// either stays open with the same style and the text it had in front, or is
/// finished as it was. Finished runs never change.
pub proof fn lemma_style_sealed(before: Building, event: Event)
    requires
        before.cur is Some,
        before.cur->0.text.len() > 0,
    ensures
        ({
            let run = before.cur->0;
            let after = before.perform(event);
            ||| after.done == before.done && after.cur is Some && after.cur->0.style
                == run.style && run.text.is_prefix_of(after.cur->0.text)
            ||| after.done == before.done.push(run)
        }),
{
}

/// The ready-made styles are what the parser builds from the sequences they
/// are named after.
pub proof fn lemma_palette()
    ensures
        CSI_RESET@ == csi_text(seq![0i64], 'm') + csi_text(seq![0i64], 'm'),
        CSI_BOLD@ == csi_text(seq![1i64], 'm'),
        CSI_BOLD_RED@ == csi_text(seq![1i64], 'm') + csi_text(seq![38i64, 5i64, 9i64], 'm'),
        CSI_BOLD_YELLOW@ == csi_text(seq![1i64], 'm') + csi_text(seq![33i64], 'm'),
        CSI_BOLD_BLUE@ == csi_text(seq![1i64], 'm') + csi_text(seq![38i64, 5i64, 12i64], 'm'),
{
    reveal_strlit("\u{1b}[0m\u{1b}[0m");
    reveal_strlit("\u{1b}[1m");
    reveal_strlit("\u{1b}[1m\u{1b}[38;5;9m");
    reveal_strlit("\u{1b}[1m\u{1b}[33m");
    reveal_strlit("\u{1b}[1m\u{1b}[38;5;12m");
    reveal_with_fuel(digits, 3);
    reveal_with_fuel(joined, 4);
    assert(decimal(0) =~= seq!['0']);
    assert(decimal(1) =~= seq!['1']);
    assert(decimal(5) =~= seq!['5']);
    assert(decimal(9) =~= seq!['9']);
    assert(decimal(12) =~= seq!['1', '2']);
    assert(decimal(33) =~= seq!['3', '3']);
    assert(decimal(38) =~= seq!['3', '8']);
    let a = seq![38i64, 5i64, 9i64];
    assert(a.drop_first() =~= seq![5i64, 9i64]);
    assert(a.drop_first().drop_first() =~= seq![9i64]);
    assert(joined(a) =~= seq!['3', '8', ';', '5', ';', '9']);
    let b = seq![38i64, 5i64, 12i64];
    assert(b.drop_first() =~= seq![5i64, 12i64]);
    assert(b.drop_first().drop_first() =~= seq![12i64]);
    assert(joined(b) =~= seq!['3', '8', ';', '5', ';', '1', '2']);
    assert(CSI_RESET@ =~= csi_text(seq![0i64], 'm') + csi_text(seq![0i64], 'm'));
    assert(CSI_BOLD@ =~= csi_text(seq![1i64], 'm'));
    assert(CSI_BOLD_RED@ =~= csi_text(seq![1i64], 'm') + csi_text(a, 'm'));
    assert(CSI_BOLD_YELLOW@ =~= csi_text(seq![1i64], 'm') + csi_text(seq![33i64], 'm'));
    assert(CSI_BOLD_BLUE@ =~= csi_text(seq![1i64], 'm') + csi_text(b, 'm'));
}

} // verus!
