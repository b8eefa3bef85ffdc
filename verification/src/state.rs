//! The two modes of the fan-control attribute and their wire codes.

use crate::text::{chars_of, is_whitespace, lemma_trimmed_of_padded, trim_bounds, trimmed};
use vstd::prelude::*;

verus! {

/// What the fan-control attribute selects.
///
/// `PwmOff` takes the fan out of firmware control, so that it runs uncapped;
/// `PwmOn` hands the fan back to the firmware.
#[derive(Clone, Copy, Debug, PartialEq, Eq, Structural)]
pub enum CpuFanState {
    PwmOff,
    PwmOn,
}

impl CpuFanState {
    /// The character that stands for this state on the control attribute.
    pub open spec fn code_char(self) -> char {
        match self {
            CpuFanState::PwmOff => '0',
            CpuFanState::PwmOn => '2',
        }
    }

    /// The text that stands for this state on the control attribute.
    pub open spec fn code(self) -> Seq<char> {
        seq![self.code_char()]
    }

    /// The state that `text` stands for once surrounding white space is
    /// removed, if it stands for one.
    pub open spec fn parse(text: Seq<char>) -> Option<CpuFanState> {
        let t = trimmed(text);
        if t == CpuFanState::PwmOff.code() {
            Some(CpuFanState::PwmOff)
        } else if t == CpuFanState::PwmOn.code() {
            Some(CpuFanState::PwmOn)
        } else {
            None
        }
    }

    /// Reads a state from the text of the control attribute: `"0"` is
    /// `PwmOff`, `"2"` is `PwmOn`, white space around either is ignored, and
    /// anything else is no state.
    pub fn from_str(val: &str) -> (state: Option<Self>)
        ensures
            state == Self::parse(val@),
    {
        let chars = chars_of(val);
        let (start, end) = trim_bounds(&chars);
        if end - start != 1 {
            assert(CpuFanState::PwmOff.code().len() == 1);
            assert(CpuFanState::PwmOn.code().len() == 1);
            return None;
        }
        let c = chars[start];
        proof {
            let t = trimmed(val@);
            assert(t.len() == 1);
            assert(t[0] == c);
            assert(t =~= seq![c]);
            assert(CpuFanState::PwmOff.code()[0] == '0');
            assert(CpuFanState::PwmOn.code()[0] == '2');
        }
        if c == '0' {
            Some(CpuFanState::PwmOff)
        } else if c == '2' {
            Some(CpuFanState::PwmOn)
        } else {
            None
        }
    }

    /// The text to write to the control attribute to select this state.
    pub fn as_str(&self) -> (text: &'static str)
        ensures
            text@ == self.code(),
    {
        match self {
            CpuFanState::PwmOff => {
                proof {
                    reveal_strlit("0");
                    assert("0"@ =~= seq!['0']);
                }
                "0"
            },
            CpuFanState::PwmOn => {
                proof {
                    reveal_strlit("2");
                    assert("2"@ =~= seq!['2']);
                }
                "2"
            },
        }
    }
}

/// Why the state of the fan control could not be had.
#[derive(Clone, Copy, Debug, PartialEq, Eq, Structural)]
pub enum StateError {
    /// The control attribute could not be read.
    Io,
    /// The control attribute holds a text that is the code of no state.
    Unknown,
}

/// The state that the fan control is in, where `contents` is the text of the
/// control attribute or `None` when reading it failed.
pub open spec fn state_of(contents: Option<Seq<char>>) -> Result<CpuFanState, StateError> {
    match contents {
        None => Err(StateError::Io),
        Some(text) => match CpuFanState::parse(text) {
            Some(state) => Ok(state),
            None => Err(StateError::Unknown),
        },
    }
}

/// The state that the fan control is in, from what reading the control
/// attribute gave: the text, or `None` when the read failed.
pub fn get_cpu_fan_pwm_state(contents: Option<&str>) -> (state: Result<CpuFanState, StateError>)
    ensures
        state == state_of(
            match contents {
                Some(text) => Some(text@),
                None => None,
            },
        ),
{
    match contents {
        None => Err(StateError::Io),
        Some(text) => match CpuFanState::from_str(text) {
            Some(state) => Ok(state),
            None => Err(StateError::Unknown),
        },
    }
}

/// Writing a state's code and reading it back gives the state again, also
/// when white space surrounds the code.
pub proof fn lemma_code_round_trip(state: CpuFanState, before: Seq<char>, after: Seq<char>)
    requires
        forall|i: int| 0 <= i < before.len() ==> is_whitespace(#[trigger] before[i]),
        forall|i: int| 0 <= i < after.len() ==> is_whitespace(#[trigger] after[i]),
    ensures
        CpuFanState::parse(before + state.code() + after) == Some(state),
{
    assert(state.code().first() == state.code_char());
    assert(state.code().last() == state.code_char());
    lemma_trimmed_of_padded(before, state.code(), after);
    assert(CpuFanState::PwmOff.code()[0] == '0');
    assert(CpuFanState::PwmOn.code()[0] == '2');
}

/// A text stands for a state only if, white space aside, it is that state's
/// code.
pub proof fn lemma_parse_is_code(text: Seq<char>, state: CpuFanState)
    ensures
        CpuFanState::parse(text) == Some(state) <==> trimmed(text) == state.code(),
{
    assert(CpuFanState::PwmOff.code()[0] == '0');
    assert(CpuFanState::PwmOn.code()[0] == '2');
}

} // verus!
