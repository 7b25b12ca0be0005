//! Keyboard input for modal keybindings: which characters and keys are held
//! or were just pressed, and trees of key sequences leading to actions.

pub mod modal;
pub mod pressed_chars;
