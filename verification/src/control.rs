//! The Acting state of the control loop: resolving a parsed action against
//! the element enumeration of the same cycle.
//!
//! The parser does no range checking, so the check that a slot id actually
//! names an element of the current enumeration happens here, and an id out
//! of bounds aborts the run.  `Answer` is terminal: it carries the agent's
//! final output.

use vstd::prelude::*;

use crate::agent::Action;
use crate::agent::AgentError;
use crate::agent::SpecAgentError;

verus! {

/// A page mutation for the surrounding loop to dispatch before observing
/// again: click the element in the slot, or type the text into it and press
/// ENTER.
#[derive(Debug, Clone)]
pub enum PageCommand {
    ClickElement(usize),
    TypeSubmit(usize, String),
}

/// What one cycle decided: mutate the page and observe again, or finish with
/// the agent's final answer.
#[derive(Debug, Clone)]
pub enum Outcome {
    Continue(PageCommand),
    Finished(String),
}

/// Resolves one action against the enumeration it was chosen for, given how
/// many elements that enumeration holds.  A slot id in bounds yields the
/// page command, `Answer` finishes with its text, and an id out of bounds
/// fails with a bounds error naming the id and the count.
pub fn resolve_action(action: Action, element_count: usize) -> (r: Result<Outcome, AgentError>)
    ensures
        match action {
            Action::Click(id) => if id < element_count {
                r matches Ok(Outcome::Continue(PageCommand::ClickElement(i))) && i == id
            } else {
                r matches Err(e) && e@ == SpecAgentError::OutOfRange(
                    id as int,
                    element_count as int,
                )
            },
            Action::Type(id, text) => if id < element_count {
                r matches Ok(Outcome::Continue(PageCommand::TypeSubmit(i, t))) && i == id && t@
                    == text@
            } else {
                r matches Err(e) && e@ == SpecAgentError::OutOfRange(
                    id as int,
                    element_count as int,
                )
            },
            Action::Answer(text) => r matches Ok(Outcome::Finished(t)) && t@ == text@,
        },
{
    match action {
        Action::Click(id) => {
            if id < element_count {
                Ok(Outcome::Continue(PageCommand::ClickElement(id)))
            } else {
                Err(AgentError::OutOfRange(id, element_count))
            }
        },
        Action::Type(id, text) => {
            if id < element_count {
                Ok(Outcome::Continue(PageCommand::TypeSubmit(id, text)))
            } else {
                Err(AgentError::OutOfRange(id, element_count))
            }
        },
        Action::Answer(text) => Ok(Outcome::Finished(text)),
    }
}

} // verus!
