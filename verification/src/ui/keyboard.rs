use vstd::prelude::*;

verus! {

/// A key press, from the on-screen keyboard or the physical one.
#[derive(Clone, Copy, Debug, PartialEq, Eq, Structural)]
pub enum KeyEvent {
    Letter(char),
    Enter,
    Backspace,
}

} // verus!
