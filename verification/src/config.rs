//! Operator configuration: workspace count, key bindings and window gaps.
//!
//! Reading and parsing a configuration file is I/O and happens outside the
//! library; this module holds the configuration values themselves and the
//! fallback used when no file is found.

use vstd::prelude::*;

verus! {

/// A single modifier key that may take part in a key binding.
#[derive(Debug, Clone, Copy, PartialEq, Eq, Structural)]
pub enum KeyModifier {
    Ctrl,
    Alt,
    Shift,
    Super,
    CapsLock,
    NumLock,
}

/// The set of modifier keys expected to be held alongside a bound key.
#[derive(Debug, Clone, Copy, PartialEq, Eq, Hash, Structural)]
pub struct KeyModifiers {
    pub ctrl: bool,
    pub alt: bool,
    pub shift: bool,
    pub logo: bool,
    pub caps_lock: bool,
    pub num_lock: bool,
}

impl KeyModifiers {
    /// The empty modifier set: no modifier held.
    pub fn empty() -> (r: KeyModifiers)
        ensures
            !r.ctrl && !r.alt && !r.shift && !r.logo && !r.caps_lock && !r.num_lock,
    {
        KeyModifiers {
            ctrl: false,
            alt: false,
            shift: false,
            logo: false,
            caps_lock: false,
            num_lock: false,
        }
    }

    /// Adds one modifier to the set, leaving the others as they were.
    pub fn with(self, m: KeyModifier) -> (r: KeyModifiers)
        ensures
            r.ctrl == (self.ctrl || m == KeyModifier::Ctrl),
            r.alt == (self.alt || m == KeyModifier::Alt),
            r.shift == (self.shift || m == KeyModifier::Shift),
            r.logo == (self.logo || m == KeyModifier::Super),
            r.caps_lock == (self.caps_lock || m == KeyModifier::CapsLock),
            r.num_lock == (self.num_lock || m == KeyModifier::NumLock),
    {
        let mut r = self;
        match m {
            KeyModifier::Ctrl => r.ctrl = true,
            KeyModifier::Alt => r.alt = true,
            KeyModifier::Shift => r.shift = true,
            KeyModifier::Super => r.logo = true,
            KeyModifier::CapsLock => r.caps_lock = true,
            KeyModifier::NumLock => r.num_lock = true,
        }
        r
    }
}

impl KeyModifier {
    /// The singleton modifier set holding only this modifier.
    pub fn to_modifiers(self) -> (r: KeyModifiers)
        ensures
            r.ctrl == (self == KeyModifier::Ctrl),
            r.alt == (self == KeyModifier::Alt),
            r.shift == (self == KeyModifier::Shift),
            r.logo == (self == KeyModifier::Super),
            r.caps_lock == (self == KeyModifier::CapsLock),
            r.num_lock == (self == KeyModifier::NumLock),
    {
        KeyModifiers::empty().with(self)
    }
}

/// Description of a key combination that the compositor may handle:
/// the expected modifiers together with the keysym that was pressed.
#[derive(Debug, Clone, Copy, PartialEq, Eq, Hash, Structural)]
pub struct KeyPattern {
    /// What modifiers are expected to be pressed alongside the key.
    pub modifiers: KeyModifiers,
    /// The actual key that was pressed, as a keysym code.
    pub key: u32,
}

impl KeyPattern {
    pub fn new(modifiers: KeyModifiers, key: u32) -> (r: KeyPattern)
        ensures
            r.modifiers == modifiers,
            r.key == key,
    {
        KeyPattern { modifiers, key }
    }
}

/// An operation the compositor performs when a bound key combination fires.
#[derive(Debug, Clone, PartialEq, Eq)]
pub enum Action {
    Terminate,
    Debug,
    Close,
    Workspace(u8),
    ToggleWindowFloating,
    Spawn(String),
}

/// One key binding: a pattern and the action it triggers.
#[derive(Debug, Clone)]
pub struct KeyBinding {
    pub pattern: KeyPattern,
    pub action: Action,
}

/// The gaps used when no configuration file supplies any:
/// no outer gap, four logical pixels between windows.
pub fn default_gaps() -> (r: (u8, u8))
    ensures
        r.0 == 0u8,
        r.1 == 4u8,
{
    (0u8, 4u8)
}

/// Operator configuration for the compositor.
#[derive(Debug)]
pub struct Config {
    /// How many workspaces exist.
    pub workspaces: u8,
    /// The configured key bindings.
    pub keybindings: Vec<KeyBinding>,
    /// Outer and inner window gaps, in logical pixels.
    pub gaps: (u8, u8),
}

impl Config {
    /// The configuration used when no configuration file exists:
    /// a single workspace, no bindings, and the default gaps.
    pub fn fallback() -> (r: Config)
        ensures
            r.workspaces == 1u8,
            r.keybindings@.len() == 0,
            r.gaps.0 == 0u8,
            r.gaps.1 == 4u8,
    {
        Config { workspaces: 1, keybindings: Vec::new(), gaps: default_gaps() }
    }

    /// Looks up the action bound to a key pattern: the action of the
    /// first binding whose pattern equals the one pressed, if any.
    pub fn action_for(&self, pattern: KeyPattern) -> (r: Option<&Action>)
        ensures
            match r {
                Some(a) => exists|i: int|
                    {
                        &&& 0 <= i < self.keybindings@.len()
                        &&& (#[trigger] self.keybindings@[i]).pattern == pattern
                        &&& self.keybindings@[i].action == a
                        &&& forall|j: int|
                            0 <= j < i ==> self.keybindings@[j].pattern != pattern
                    },
                None => forall|i: int|
                    0 <= i < self.keybindings@.len() ==> self.keybindings@[i].pattern
                        != pattern,
            },
    {
        let mut i: usize = 0;
        while i < self.keybindings.len()
            invariant
                i <= self.keybindings@.len(),
                forall|j: int| 0 <= j < i ==> self.keybindings@[j].pattern != pattern,
            decreases self.keybindings@.len() - i,
        {
            if self.keybindings[i].pattern == pattern {
                proof {
                    assert(self.keybindings@[i as int].pattern == pattern);
                }
                return Some(&self.keybindings[i].action);
            }
            i = i + 1;
        }
        None
    }
}

} // verus!
