//! Middleware that can observe or transform what is typed into a terminal.
use vstd::prelude::*;

use std::borrow::Cow;

use crate::view::TerminalEvent;

verus! {

/// Where input bytes come from.
#[derive(Clone, Copy, Debug, PartialEq, Eq, Structural)]
pub enum InputOrigin {
    /// A key press.
    Keystroke,
    /// Text input.
    Text,
    /// A paste.
    Paste,
    /// A mouse action.
    Mouse,
    /// Wheel scrolling.
    Scroll,
    /// A focus change.
    Focus,
    /// A clipboard operation.
    Clipboard,
    /// System input.
    System,
    /// Input made by a program.
    Programmatic,
}

/// Observes or transforms the input of a terminal before it reaches the
/// pseudo-terminal.
pub trait TerminalMiddleware: Send + Sync {
    /// Inspects or transforms input bytes; `None` drops them. By default the
    /// input passes unchanged.
    fn on_input(&self, input: Cow<'static, [u8]>, origin: InputOrigin) -> (r: Option<
        Cow<'static, [u8]>,
    >)
        default_ensures
            r == Some(input),
    {
        Some(input)
    }

    /// Observes an event the terminal reports to its view. By default it
    /// does nothing.
    fn on_event(&self, event: &TerminalEvent) {
    }
}

} // verus!
