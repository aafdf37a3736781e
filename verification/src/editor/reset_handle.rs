use vstd::prelude::*;

use super::line::Line;
use crate::history::History;
use crate::input::{parser_step, step_overflows, Action, CSI};
use crate::line_buffer::Buffer;
use crate::output::{Output, OutputAction};
use crate::terminal::Cursor;

verus! {

/// Where resetting the terminal stands.
#[derive(Debug, Clone, Copy, PartialEq, Eq, Structural)]
pub enum ResetState {
    New,
    GetSize,
    GetPosition,
    Done,
}

/// Brings the terminal into a known state before a line is read: asks
/// for its size, prints the prompt and asks for the cursor position.
pub struct ResetHandle<'line, 'a, B: Buffer, H: History> {
    /// The line being reset, lent for as long as the reset runs.
    pub line: &'line mut Line<'a, B, H>,
    pub state: ResetState,
}

impl<'line, 'a, B: Buffer, H: History> ResetHandle<'line, 'a, B, H> {
    pub open spec fn line(&self) -> Line<'a, B, H> {
        *self.line
    }

    pub open spec fn state(&self) -> ResetState {
        self.state
    }

    pub(super) fn new(line: &'line mut Line<'a, B, H>) -> (h: Self)
        ensures
            h.line() == *old(line),
            h.state() == ResetState::New,
            *final(h.line) == *final(line),
    {
        Self { line, state: ResetState::New }
    }

    /// Asks for the terminal's size.
    pub fn start(&mut self) -> (o: Output<'_, B>)
        requires
            old(self).line().wf(),
            old(self).state() == ResetState::New,
        ensures
            *final(final(self).line.buffer) == *final(old(self).line.buffer),
            *final(final(self).line.terminal) == *final(old(self).line.terminal),
            *final(final(self).line.nav.history) == *final(old(self).line.nav.history),
            final(self).state() == ResetState::GetSize,
            *final(final(self).line) == *final(old(self).line),
            o.spec_action() == OutputAction::ProbeSize,
            o.spec_prompt() == old(self).line().prompt(),
            o.spec_buffer() == old(self).line().line_buffer()@,
            o.spec_terminal() == old(self).line().terminal(),
            final(self).line().terminal() == *final(o.terminal),
            final(self).line().wf(),
            final(self).line().line_buffer() == old(self).line().line_buffer(),
            final(self).line().parser() == old(self).line().parser(),
            final(self).line().prompt() == old(self).line().prompt(),
            final(self).line().navigator() == old(self).line().navigator(),
    {
        self.state = ResetState::GetSize;
        self.line.generate_output(OutputAction::ProbeSize)
    }

    /// Takes one input byte: a cursor position report gives the size,
    /// then the cursor position; other input is passed over.
    pub fn advance(&mut self, byte: u8) -> (o: Option<Output<'_, B>>)
        requires
            old(self).line().wf(),
            !step_overflows(old(self).line().parser().spec_state(), byte),
            parser_step(old(self).line().parser().spec_state(), byte).1 matches Action::ControlSequenceIntroducer(
                CSI::CPR(r, c),
            ) ==> match old(self).state() {
                ResetState::GetSize => true,
                ResetState::GetPosition => 1 <= r && 1 <= c && r - 1 <= isize::MAX,
                _ => false,
            },
        ensures
            *final(final(self).line.buffer) == *final(old(self).line.buffer),
            *final(final(self).line.terminal) == *final(old(self).line.terminal),
            *final(final(self).line.nav.history) == *final(old(self).line.nav.history),
            ({
                let (state, a) = parser_step(old(self).line().parser().spec_state(), byte);
                let t = old(self).line().terminal();
                match a {
                    Action::ControlSequenceIntroducer(CSI::CPR(r, c)) => match old(self).state() {
                        ResetState::GetSize => {
                            &&& final(self).state() == ResetState::GetPosition
                            &&& o matches Some(out) && out.spec_action()
                                == OutputAction::ClearAndPrintPrompt && out.spec_terminal().rows()
                                == r && out.spec_terminal().columns() == c
                                && out.spec_terminal().cursor() == t.cursor()
                                && out.spec_terminal().row_offset() == t.row_offset()
                                && final(self).line().terminal() == *final(out.terminal)
                        },
                        _ => {
                            &&& final(self).state() == ResetState::Done
                            &&& o is None
                            &&& final(self).line().terminal() == t.spec_reset(
                                Cursor { row: (r - 1) as usize, column: (c - 1) as usize },
                            )
                        },
                    },
                    Action::Ignore => {
                        &&& final(self).state() == old(self).state()
                        &&& o matches Some(out) && out.spec_action() == OutputAction::Nothing
                            && out.spec_terminal() == t && final(self).line().terminal()
                            == *final(out.terminal)
                    },
                    _ => {
                        &&& final(self).state() == old(self).state()
                        &&& o is None
                        &&& final(self).line().terminal() == t
                    },
                }
            }),
            final(self).line().wf(),
            *final(final(self).line) == *final(old(self).line),
            final(self).line().parser().spec_state() == parser_step(
                old(self).line().parser().spec_state(),
                byte,
            ).0,
            final(self).line().line_buffer() == old(self).line().line_buffer(),
            final(self).line().prompt() == old(self).line().prompt(),
            final(self).line().navigator() == old(self).line().navigator(),
            o matches Some(out) ==> out.spec_prompt() == old(self).line().prompt() && out.spec_buffer()
                == old(self).line().line_buffer()@,
    {
        let action = self.line.advance_parser(byte);
        match action {
            Action::ControlSequenceIntroducer(CSI::CPR(x, y)) => match self.state {
                ResetState::GetSize => {
                    self.line.resize_terminal(x, y);
                    self.state = ResetState::GetPosition;
                    Some(self.line.generate_output(OutputAction::ClearAndPrintPrompt))
                },
                _ => {
                    self.line.reset_terminal(Cursor::new(x - 1, y - 1));
                    self.state = ResetState::Done;
                    None
                },
            },
            Action::Ignore => Some(self.line.generate_output(OutputAction::Nothing)),
            _ => None,
        }
    }
}

} // verus!
