//! The decisions of the terminal view: the bell indicator and what a mouse
//! press does.
use vstd::prelude::*;

verus! {

/// Events a terminal reports to its view.
#[derive(Clone, Copy, Debug, PartialEq, Eq, Structural)]
pub enum TerminalEvent {
    Wakeup,
    Bell,
    TitleChanged,
    BlinkChanged(bool),
    SelectionsChanged,
    CloseTerminal,
}

/// What changes the bell indicator: a terminal event, a clear, or a key
/// press (which clears it too).
#[derive(Clone, Copy, Debug, PartialEq, Eq, Structural)]
pub enum BellInput {
    Event(TerminalEvent),
    Clear,
    KeyDown,
}

/// The indicator after one input: a bell sets it, a clear or key press
/// resets it, other events leave it.
pub open spec fn bell_step(rung: bool, input: BellInput) -> bool {
    match input {
        BellInput::Event(e) => rung || e == TerminalEvent::Bell,
        BellInput::Clear => false,
        BellInput::KeyDown => false,
    }
}

/// The indicator after the inputs, one after the other.
pub open spec fn bell_after(rung: bool, inputs: Seq<BellInput>) -> bool
    decreases inputs.len(),
{
    if inputs.len() == 0 {
        rung
    } else {
        bell_step(bell_after(rung, inputs.drop_last()), inputs.last())
    }
}

/// A bell came after the last clear or key press (or at any time, when
/// there was none).
pub open spec fn bell_since_clear(inputs: Seq<BellInput>) -> bool {
    exists|i: int| #[trigger] bell_at_since(inputs, i)
}

/// A bell at index `i` with only events after it.
pub open spec fn bell_at_since(inputs: Seq<BellInput>, i: int) -> bool {
    &&& 0 <= i < inputs.len()
    &&& inputs[i] == BellInput::Event(TerminalEvent::Bell)
    &&& forall|j: int| i < j < inputs.len() ==> (#[trigger] inputs[j]) is Event
}

proof fn lemma_bell_at_since_extend(inputs: Seq<BellInput>, i: int)
    requires
        inputs.len() > 0,
        inputs.last() is Event,
    ensures
        bell_at_since(inputs.drop_last(), i) ==> bell_at_since(inputs, i),
        i < inputs.len() - 1 && bell_at_since(inputs, i) ==> bell_at_since(inputs.drop_last(), i),
{
    let init = inputs.drop_last();
    if bell_at_since(init, i) {
        assert forall|j: int| i < j < inputs.len() implies (#[trigger] inputs[j]) is Event by {
            if j < inputs.len() - 1 {
                assert(inputs[j] == init[j]);
            }
        }
    }
    if i < inputs.len() - 1 && bell_at_since(inputs, i) {
        assert forall|j: int| i < j < init.len() implies (#[trigger] init[j]) is Event by {
            assert(init[j] == inputs[j]);
        }
    }
}

/// Starting from no bell, the indicator is set exactly when a bell event
/// came after the last clear or key press; other events never change it.
pub proof fn lemma_bell_indicator(inputs: Seq<BellInput>)
    ensures
        bell_after(false, inputs) == bell_since_clear(inputs),
    decreases inputs.len(),
{
    if inputs.len() > 0 {
        let init = inputs.drop_last();
        let n = inputs.len() - 1;
        lemma_bell_indicator(init);
        match inputs.last() {
            BellInput::Event(e) => {
                if bell_since_clear(init) {
                    let i = choose|i: int| bell_at_since(init, i);
                    lemma_bell_at_since_extend(inputs, i);
                    assert(bell_at_since(inputs, i));
                }
                if bell_since_clear(inputs) {
                    let i = choose|i: int| bell_at_since(inputs, i);
                    lemma_bell_at_since_extend(inputs, i);
                    if i < n {
                        assert(bell_at_since(init, i));
                    }
                }
                if e == TerminalEvent::Bell {
                    assert(bell_at_since(inputs, n));
                }
            },
            _ => {
                assert forall|i: int| !bell_at_since(inputs, i) by {
                    if 0 <= i < n {
                        assert(!(inputs[n] is Event));
                    }
                }
            },
        }
    }
}

/// Whether the bell has rung since it was last cleared. The view is redrawn
/// after every event and every change of the indicator.
#[derive(Clone, Copy, Debug)]
pub struct BellState {
    has_bell: bool,
}

impl BellState {
    /// The indicator.
    pub closed spec fn rung(self) -> bool {
        self.has_bell
    }

    /// No bell has rung.
    pub fn new() -> (b: BellState)
        ensures
            !b.rung(),
    {
        BellState { has_bell: false }
    }

    /// Whether the bell has rung since it was last cleared.
    pub fn has_bell(&self) -> (b: bool)
        ensures
            b == self.rung(),
    {
        self.has_bell
    }

    /// Clears the indicator (also done on every key press).
    pub fn clear_bell(&mut self)
        ensures
            !final(self).rung(),
            final(self).rung() == bell_step(old(self).rung(), BellInput::Clear),
            final(self).rung() == bell_step(old(self).rung(), BellInput::KeyDown),
    {
        self.has_bell = false;
    }

    /// Records an event: a bell sets the indicator, other events leave it.
    pub fn handle_terminal_event(&mut self, event: &TerminalEvent)
        ensures
            final(self).rung() == (old(self).rung() || *event == TerminalEvent::Bell),
            final(self).rung() == bell_step(old(self).rung(), BellInput::Event(*event)),
    {
        match event {
            TerminalEvent::Bell => {
                self.has_bell = true;
            },
            _ => {},
        }
    }
}

/// Mouse buttons.
#[derive(Clone, Copy, Debug, PartialEq, Eq, Structural)]
pub enum PointerButton {
    Left,
    Right,
    Middle,
}

/// What a mouse press in the view does.
#[derive(Clone, Copy, Debug, PartialEq, Eq, Structural)]
pub enum MouseDownAction {
    /// Paste the clipboard into the terminal.
    PasteClipboard,
    /// Hand the press to the terminal (selection or mouse reporting).
    ForwardToTerminal,
}

/// A right click pastes, unless the terminal reports the mouse to its
/// program; every other press goes to the terminal.
pub fn mouse_down_action(button: PointerButton, mouse_mode: bool) -> (a: MouseDownAction)
    ensures
        a == if button == PointerButton::Right && !mouse_mode {
            MouseDownAction::PasteClipboard
        } else {
            MouseDownAction::ForwardToTerminal
        },
{
    match button {
        PointerButton::Right => if mouse_mode {
            MouseDownAction::ForwardToTerminal
        } else {
            MouseDownAction::PasteClipboard
        },
        _ => MouseDownAction::ForwardToTerminal,
    }
}

} // verus!
