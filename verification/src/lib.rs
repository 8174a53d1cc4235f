//! Clipboard history: the policy, formats, previews and the history store of
//! a clipboard keeper, each function proved against its contract.

pub mod text;
pub mod clip;
pub mod applet;
pub mod control;
pub mod shortcut;
