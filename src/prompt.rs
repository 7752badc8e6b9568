//! The decisions of the interactive prompt: a text buffer that is edited,
//! submitted, picked from the suggestions, or abandoned.

use vstd::prelude::*;

verus! {

/// Where the prompt stands.
#[derive(Debug, Clone)]
pub enum PromptState {
    /// The user is typing; the buffer holds what is typed so far.
    Editing(String),
    /// The prompt ended with this non-empty answer.
    Submitted(String),
    /// The user abandoned the prompt.
    Cancelled,
}

/// What the user did.
#[derive(Debug, Clone)]
pub enum PromptEvent {
    /// The buffer now reads this.
    Edited(String),
    /// The user asked to submit the buffer.
    Submit,
    /// The user picked this suggestion.
    Pick(String),
    /// The user aborted.
    Cancel,
}

/// What the terminal has to do next.
#[derive(Debug, Clone)]
pub enum PromptAction {
    /// Show the suggestions for this buffer.
    Suggest(String),
    /// Tell the user that an answer is required.
    Required,
    /// Hand this answer to the caller.
    Finish(String),
    /// Report the abort to the caller.
    Abort,
    /// Nothing to do.
    Idle,
}

/// Editing a buffer that reads `t`.
pub open spec fn editing(s: PromptState, t: Seq<char>) -> bool {
    match s {
        PromptState::Editing(x) => x@ == t,
        _ => false,
    }
}

/// Ended with the answer `t`.
pub open spec fn submitted(s: PromptState, t: Seq<char>) -> bool {
    match s {
        PromptState::Submitted(x) => x@ == t,
        _ => false,
    }
}

/// Showing the suggestions for `t`.
pub open spec fn suggesting(a: PromptAction, t: Seq<char>) -> bool {
    match a {
        PromptAction::Suggest(x) => x@ == t,
        _ => false,
    }
}

/// Handing the answer `t` to the caller.
pub open spec fn finishing(a: PromptAction, t: Seq<char>) -> bool {
    match a {
        PromptAction::Finish(x) => x@ == t,
        _ => false,
    }
}

/// The prompt's first state: editing an empty buffer.
pub fn prompt_start() -> (r: PromptState)
    ensures
        editing(r, Seq::<char>::empty()),
{
    PromptState::Editing(String::new())
}

/// One step of the prompt. While editing: an edit replaces the buffer and asks
/// for its suggestions; a submission or a pick of a non-empty text ends the
/// prompt with it, while an empty one is refused in place; an abort cancels.
/// A prompt that has ended stays as it is.
pub fn prompt_step(state: PromptState, event: PromptEvent) -> (r: (PromptState, PromptAction))
    ensures
        match (state, event) {
            (PromptState::Editing(b), PromptEvent::Edited(nb)) => editing(r.0, nb@) && suggesting(
                r.1,
                nb@,
            ),
            (PromptState::Editing(b), PromptEvent::Submit) => if b@.len() == 0 {
                editing(r.0, b@) && r.1 is Required
            } else {
                submitted(r.0, b@) && finishing(r.1, b@)
            },
            (PromptState::Editing(b), PromptEvent::Pick(p)) => if p@.len() == 0 {
                editing(r.0, b@) && r.1 is Required
            } else {
                submitted(r.0, p@) && finishing(r.1, p@)
            },
            (PromptState::Editing(_), PromptEvent::Cancel) => r.0 is Cancelled && r.1 is Abort,
            (PromptState::Submitted(a), _) => submitted(r.0, a@) && r.1 is Idle,
            (PromptState::Cancelled, _) => r.0 is Cancelled && r.1 is Idle,
        },
{
    match state {
        PromptState::Editing(b) => match event {
            PromptEvent::Edited(nb) => {
                let shown = nb.clone();
                (PromptState::Editing(nb), PromptAction::Suggest(shown))
            },
            PromptEvent::Submit => {
                if b.as_str().is_empty() {
                    (PromptState::Editing(b), PromptAction::Required)
                } else {
                    let answer = b.clone();
                    (PromptState::Submitted(b), PromptAction::Finish(answer))
                }
            },
            PromptEvent::Pick(p) => {
                if p.as_str().is_empty() {
                    (PromptState::Editing(b), PromptAction::Required)
                } else {
                    let answer = p.clone();
                    (PromptState::Submitted(p), PromptAction::Finish(answer))
                }
            },
            PromptEvent::Cancel => (PromptState::Cancelled, PromptAction::Abort),
        },
        PromptState::Submitted(a) => (PromptState::Submitted(a), PromptAction::Idle),
        PromptState::Cancelled => (PromptState::Cancelled, PromptAction::Idle),
    }
}

} // verus!
