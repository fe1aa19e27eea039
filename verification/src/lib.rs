//! Interactive message-repeater core: validated prompts, configuration
//! collection, and run-mode dispatch, modelled over explicit input traces.

pub mod collect;
pub mod coords;
pub mod dispatch;
pub mod parse;
pub mod prompt;
pub mod text;
