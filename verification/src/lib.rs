//! A verified core for a browser-driving agent.
//!
//! Given a natural-language goal, the surrounding program repeatedly observes
//! a web page, asks a language model to choose one action, and executes that
//! action until the model signals completion.  This library holds the parts
//! with real invariants: turning page structure into a bounded prompt
//! ([`translate`]), turning the model's free-text reply into a validated
//! command ([`Action`]), and managing the conversation state across
//! navigations ([`Conversation`]).  Browser control and the network call to
//! the model stay outside; they hand this library plain values.

pub mod agent;
pub mod control;
pub mod conversation;
pub mod interpreter;
pub mod text;

pub use agent::Action;
pub use agent::AgentError;
pub use control::resolve_action;
pub use conversation::Conversation;
pub use interpreter::translate;
