//! Folds what the escape sequence parser reports into the runs of a line.

use vstd::prelude::*;
use vte::Perform;
use crate::style::{csi_text, is_reset};
use crate::tline::{runs_of, TLine};
use crate::tstring::{Run, TString};

verus! {

/// One call that the parser makes to report what it has decoded: the eight
/// methods of `vte::Perform`, each with its arguments.
#[allow(inconsistent_fields)]
pub enum Event {
    /// A printable character.
    Print(char),
    /// A C0 or C1 control.
    Execute(u8),
    /// The start of a device control string.
    Hook { params: Seq<i64>, intermediates: Seq<u8>, ignore: bool, action: char },
    /// A byte of a device control string.
    Put(u8),
    /// The end of a device control string.
    Unhook,
    /// An operating system command.
    Osc { params: Seq<Seq<u8>>, bell_terminated: bool },
    /// A control sequence: its parameters, its intermediate bytes, whether
    /// some of either were dropped, and its final character.
    Csi { params: Seq<i64>, intermediates: Seq<u8>, ignore: bool, action: char },
    /// An escape sequence.
    Esc { intermediates: Seq<u8>, ignore: bool, byte: u8 },
}

/// The characters that the events print, in order.
pub open spec fn printed(events: Seq<Event>) -> Seq<char>
    decreases events.len(),
{
    if events.len() == 0 {
        Seq::empty()
    } else {
        let first = match events[0] {
            Event::Print(c) => seq![c],
            _ => Seq::empty(),
        };
        first + printed(events.drop_first())
    }
}

/// Where the building of a line stands: the runs that are finished, and the
/// run that is open, if one is.
pub struct Building {
    pub done: Seq<Run>,
    pub cur: Option<Run>,
}

impl Building {
    /// Nothing finished and no run open.
    pub open spec fn start() -> Building {
        Building { done: Seq::empty(), cur: None }
    }

    /// The open run, if there is one, is finished; no run is open.
    pub open spec fn close(self) -> Building {
        match self.cur {
            Some(run) => Building { done: self.done.push(run), cur: None },
            None => self,
        }
    }

    /// A character goes to the open run, whatever its style; where none is
    /// open, it opens a run without style.
    pub open spec fn print(self, c: char) -> Building {
        match self.cur {
            Some(run) => Building {
                done: self.done,
                cur: Some(Run { style: run.style, text: run.text.push(c) }),
            },
            None => Building { done: self.done, cur: Some(Run { style: Seq::empty(), text: seq![c] }) },
        }
    }

    /// A control sequence that resets all styling finishes the open run. Any
    /// other one extends the style of the open run as long as that run has no
    /// text; else it finishes the open run and opens one with the sequence as
    /// its style.
    pub open spec fn csi(self, params: Seq<i64>, action: char) -> Building {
        if is_reset(params) {
            self.close()
        } else {
            match self.cur {
                Some(run) if run.text.len() == 0 => Building {
                    done: self.done,
                    cur: Some(Run { style: run.style + csi_text(params, action), text: run.text }),
                },
                _ => Building {
                    done: self.close().done,
                    cur: Some(Run { style: csi_text(params, action), text: Seq::empty() }),
                },
            }
        }
    }

    /// What one event does. Only printed characters and control sequences
    /// count; the others pass without a trace.
    pub open spec fn perform(self, event: Event) -> Building {
        match event {
            Event::Print(c) => self.print(c),
            Event::Csi { params, action, .. } => self.csi(params, action),
            _ => self,
        }
    }

    /// What a sequence of events does, one after the other.
    pub open spec fn perform_all(self, events: Seq<Event>) -> Building
        decreases events.len(),
    {
        if events.len() == 0 {
            self
        } else {
            self.perform(events[0]).perform_all(events.drop_first())
        }
    }

    /// The runs of the line when the input ends here: the finished ones and
    /// then the open one, even if it has no text.
    pub open spec fn runs(self) -> Seq<Run> {
        self.close().done
    }
}

/// Builds a line from the calls of the parser.
#[derive(Debug)]
pub struct TLineBuilder {
    cur: Option<TString>,
    strings: Vec<TString>,
}

impl View for TLineBuilder {
    type V = Building;

    closed spec fn view(&self) -> Building {
        Building {
            done: runs_of(self.strings@),
            cur: match self.cur {
                Some(ts) => Some(ts@),
                None => None,
            },
        }
    }
}

impl Default for TLineBuilder {
    fn default() -> (builder: TLineBuilder)
        ensures
            builder@ == Building::start(),
    {
        let builder = TLineBuilder { cur: None, strings: Vec::new() };
        assert(runs_of(builder.strings@) =~= Seq::<Run>::empty());
        builder
    }
}

impl TLineBuilder {
    /// Ends the line: the open run, if there is one, is finished, and the
    /// finished runs are the line.
    pub fn to_tline(self) -> (line: TLine)
        ensures
            line@ == self@.runs(),
    {
        let mut strings = self.strings;
        let ghost done = runs_of(strings@);
        if let Some(cur) = self.cur {
            strings.push(cur);
            assert(runs_of(strings@) =~= done.push(cur@));
        }
        TLine { strings }
    }

    /// Finishes the open run, if there is one.
    fn close(&mut self)
        ensures
            final(self)@ == old(self)@.close(),
    {
        let ghost done = runs_of(self.strings@);
        if let Some(cur) = self.cur.take() {
            self.strings.push(cur);
            assert(runs_of(self.strings@) =~= done.push(cur@));
        }
    }
}

/// What the parser reports goes into the runs. Each method does what
/// `Building::perform` says of its event.
impl Perform for TLineBuilder {
    /// The character goes to the open run; where none is open, it opens a
    /// run without style.
    fn print(&mut self, c: char)
        ensures
            final(self)@ == old(self)@.perform(Event::Print(c)),
    {
        self.cur.get_or_insert(TString::default()).raw.push(c);
    }

    /// A reset finishes the open run. Any other sequence is added to the
    /// style of the open run while that run has no text; once it has text,
    /// or where no run is open, the sequence begins the style of a new run.
    /// The intermediate bytes and the `ignore` flag play no part.
    fn csi_dispatch(&mut self, params: &[i64], intermediates: &[u8], ignore: bool, action: char)
        ensures
            final(self)@ == old(self)@.perform(
                Event::Csi { params: params@, intermediates: intermediates@, ignore, action },
            ),
    {
        if params.len() == 1 && params[0] == 0 {
            self.close();
            return ;
        }
        if let Some(cur) = self.cur.as_mut() {
            if cur.raw.as_str().is_empty() {
                cur.push_csi(params, action);
                return ;
            }
        }
        self.close();
        let mut cur = TString::default();
        cur.push_csi(params, action);
        self.cur = Some(cur);
    }

    fn execute(&mut self, byte: u8)
        ensures
            final(self)@ == old(self)@.perform(Event::Execute(byte)),
    {
    }

    fn hook(&mut self, params: &[i64], intermediates: &[u8], ignore: bool, action: char)
        ensures
            final(self)@ == old(self)@.perform(
                Event::Hook { params: params@, intermediates: intermediates@, ignore, action },
            ),
    {
    }

    fn put(&mut self, byte: u8)
        ensures
            final(self)@ == old(self)@.perform(Event::Put(byte)),
    {
    }

    fn unhook(&mut self)
        ensures
            final(self)@ == old(self)@.perform(Event::Unhook),
    {
    }

    fn osc_dispatch(&mut self, params: &[&[u8]], bell_terminated: bool)
        ensures
            final(self)@ == old(self)@.perform(
                Event::Osc { params: osc_params(params@), bell_terminated },
            ),
    {
    }

    fn esc_dispatch(&mut self, intermediates: &[u8], ignore: bool, byte: u8)
        ensures
            final(self)@ == old(self)@.perform(
                Event::Esc { intermediates: intermediates@, ignore, byte },
            ),
    {
    }
}

/// The parameters of an operating system command, each as its bytes.
pub open spec fn osc_params(params: Seq<&[u8]>) -> Seq<Seq<u8>> {
    Seq::new(params.len(), |i: int| params[i]@)
}

} // verus!
