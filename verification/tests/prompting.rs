use cargo_scan::prompt::{prompt_transition, PromptState};

#[test]
fn yes_confirms() {
    assert_eq!(prompt_transition(&b"y".to_vec()), PromptState::Confirmed);
}

#[test]
fn no_declines() {
    assert_eq!(prompt_transition(&b"n".to_vec()), PromptState::Declined);
}

#[test]
fn anything_else_keeps_waiting() {
    assert_eq!(prompt_transition(&b"x".to_vec()), PromptState::AwaitingInput);
    assert_eq!(prompt_transition(&b"".to_vec()), PromptState::AwaitingInput);
    assert_eq!(prompt_transition(&b"yes".to_vec()), PromptState::AwaitingInput);
    assert_eq!(prompt_transition(&b"Y".to_vec()), PromptState::AwaitingInput);
    assert_eq!(prompt_transition(&b"N".to_vec()), PromptState::AwaitingInput);
    assert_eq!(prompt_transition(&b"y ".to_vec()), PromptState::AwaitingInput);
}

#[test]
fn invalid_then_yes_cleans_once_with_one_correction() {
    // The prompt loop fed "x" then "y" must print exactly one correction
    // message and perform the clean action exactly once.
    let inputs = vec![b"x".to_vec(), b"y".to_vec()];
    let mut corrections = 0;
    let mut cleans = 0;
    for line in &inputs {
        match prompt_transition(line) {
            PromptState::AwaitingInput => corrections += 1,
            PromptState::Confirmed => {
                cleans += 1;
                break;
            }
            PromptState::Declined => break,
        }
    }
    assert_eq!(corrections, 1);
    assert_eq!(cleans, 1);
}

#[test]
fn declined_never_cleans() {
    let inputs = vec![b"maybe".to_vec(), b"n".to_vec()];
    let mut corrections = 0;
    let mut cleans = 0;
    for line in &inputs {
        match prompt_transition(line) {
            PromptState::AwaitingInput => corrections += 1,
            PromptState::Confirmed => {
                cleans += 1;
                break;
            }
            PromptState::Declined => break,
        }
    }
    assert_eq!(corrections, 1);
    assert_eq!(cleans, 0);
}
