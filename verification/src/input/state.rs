use vstd::prelude::*;

use crate::utf8::{expected_count, Utf8Decoder};

verus! {

/// Where the parser is within an input sequence.
#[derive(Debug, Eq, PartialEq, Clone, Copy)]
pub enum State {
    Ground,
    Utf8Sequence(Option<Utf8Decoder>),
    EscapeSequence,
    CSIStart,
    CSIArg1(Option<usize>),
    CSIArg2(Option<usize>, Option<usize>),
}

/// Inside a character the parser holds a well-formed decoder that still
/// waits for continuation bytes.
pub open spec fn state_wf(s: State) -> bool {
    match s {
        State::Utf8Sequence(d) => d matches Some(dec) && dec.wf() && expected_count(
            dec.spec_state(),
        ) > 0,
        _ => true,
    }
}

} // verus!
