//! The per-project confirmation exchange.
//!
//! For each discovered project the surrounding program asks whether to clean
//! it and reads answer lines until one settles the question. The decision —
//! which answers settle it, and how — lives here; reading the lines, printing
//! the question and the correction message, and running the clean command
//! stay outside.

use vstd::prelude::*;

verus! {

/// The states of the exchange over one project.
#[derive(Clone, Copy, Debug, PartialEq, Eq, Structural)]
pub enum PromptState {
    /// No acceptable answer yet: print a correction message and ask again.
    AwaitingInput,
    /// The answer was exactly `y`: perform the clean action, then move on.
    Confirmed,
    /// The answer was exactly `n`: move on without cleaning.
    Declined,
}

/// The confirming answer, `"y"`, as bytes.
pub open spec fn yes_answer() -> Seq<u8> {
    seq![121u8]
}

/// The declining answer, `"n"`, as bytes.
pub open spec fn no_answer() -> Seq<u8> {
    seq![110u8]
}

/// Where one answer line takes the exchange: exactly `y` confirms, exactly
/// `n` declines, and anything else leaves it awaiting input.
pub open spec fn transition_spec(line: Seq<u8>) -> PromptState {
    if line == yes_answer() {
        PromptState::Confirmed
    } else if line == no_answer() {
        PromptState::Declined
    } else {
        PromptState::AwaitingInput
    }
}

/// Consumes one answer line, already trimmed of surrounding whitespace, and
/// returns the state the exchange is now in. Case-sensitive: no answer but
/// `y` and `n` is accepted.
pub fn prompt_transition(line: &Vec<u8>) -> (r: PromptState)
    ensures
        r == transition_spec(line@),
{
    if line.len() == 1 {
        let b = line[0];
        if b == 121 {  // 'y'
            proof {
                assert(line@ =~= yes_answer());
            }
            return PromptState::Confirmed;
        }
        if b == 110 {  // 'n'
            proof {
                assert(line@ =~= no_answer());
            }
            return PromptState::Declined;
        }
    }
    proof {
        assert(line@ != yes_answer());
        assert(line@ != no_answer());
    }
    PromptState::AwaitingInput
}

} // verus!
