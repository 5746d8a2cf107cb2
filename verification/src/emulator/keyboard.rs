//! The keyboard latch: which key is held down, and what the memory cell
//! that the program reads holds for it.
use crate::emulator::ram::Ram;
use vstd::prelude::*;

verus! {

/// What the latch holds while the left arrow is down.
pub const ARROW_LEFT_CODE: i16 = 130;

/// What the latch holds while the right arrow is down.
pub const ARROW_RIGHT_CODE: i16 = 132;

/// A key, as far as the keyboard tells keys apart.
#[derive(Debug, Clone, Copy, PartialEq, Eq, Structural)]
pub enum Key {
    ArrowLeft,
    ArrowRight,
    /// Any other key.
    Other,
}

/// The key that is held down, if any.
#[derive(Debug, Clone, Copy, PartialEq, Eq, Structural)]
pub enum KeyboardState {
    Pressed(Key),
    Released,
}

/// What a key event makes of the keyboard: the next state, and what is
/// written to the latch, if anything. While no key is down, an arrow key
/// goes down and its code is latched, and any other key is ignored. While
/// a key is down, an event of that key lets it go and clears the latch, and
/// an event of any other key is ignored.
pub open spec fn after_event(state: KeyboardState, key: Key) -> (KeyboardState, Option<i16>) {
    match state {
        KeyboardState::Released => match key {
            Key::ArrowLeft => (KeyboardState::Pressed(Key::ArrowLeft), Some(ARROW_LEFT_CODE)),
            Key::ArrowRight => (KeyboardState::Pressed(Key::ArrowRight), Some(ARROW_RIGHT_CODE)),
            Key::Other => (KeyboardState::Released, None),
        },
        KeyboardState::Pressed(held) => if held == key {
            (KeyboardState::Released, Some(0i16))
        } else {
            (state, None)
        },
    }
}

/// The memory after a latch write, if there was one.
pub open spec fn latched(ram: Seq<i16>, address: int, value: Option<i16>) -> Seq<i16> {
    match value {
        Some(v) => ram.update(address, v),
        None => ram,
    }
}

/// The keyboard: its state, and the address of its latch.
pub struct Keyboard {
    pub state: KeyboardState,
    pub keyboard_address: usize,
}

impl Keyboard {
    /// A keyboard with no key down.
    pub fn new(keyboard_address: usize) -> (r: Self)
        ensures
            r.state == KeyboardState::Released,
            r.keyboard_address == keyboard_address,
    {
        Self { state: KeyboardState::Released, keyboard_address }
    }

    pub fn press(&mut self, key: Key)
        ensures
            final(self).state == KeyboardState::Pressed(key),
            final(self).keyboard_address == old(self).keyboard_address,
    {
        self.state = KeyboardState::Pressed(key);
    }

    pub fn release(&mut self)
        ensures
            final(self).state == KeyboardState::Released,
            final(self).keyboard_address == old(self).keyboard_address,
    {
        self.state = KeyboardState::Released;
    }

    /// The key that is held down, if any.
    pub fn get_key(&self) -> (r: Option<Key>)
        ensures
            r == match self.state {
                KeyboardState::Pressed(key) => Some(key),
                KeyboardState::Released => None::<Key>,
            },
    {
        match self.state {
            KeyboardState::Pressed(key) => Some(key),
            KeyboardState::Released => None,
        }
    }

    /// Takes a key event: updates the state and the latch in `ram`.
    pub fn handle_event(&mut self, key: Key, ram: &mut Ram)
        requires
            old(self).keyboard_address < old(ram)@.len(),
        ensures
            final(self).keyboard_address == old(self).keyboard_address,
            final(self).state == after_event(old(self).state, key).0,
            final(ram)@ == latched(
                old(ram)@,
                old(self).keyboard_address as int,
                after_event(old(self).state, key).1,
            ),
    {
        match self.state {
            KeyboardState::Pressed(_) => {
                self.handle_release(key, ram);
            },
            KeyboardState::Released => {
                self.handle_press(key, ram);
            },
        }
    }

    fn handle_press(&mut self, key: Key, ram: &mut Ram)
        requires
            old(self).state == KeyboardState::Released,
            old(self).keyboard_address < old(ram)@.len(),
        ensures
            final(self).keyboard_address == old(self).keyboard_address,
            final(self).state == after_event(old(self).state, key).0,
            final(ram)@ == latched(
                old(ram)@,
                old(self).keyboard_address as int,
                after_event(old(self).state, key).1,
            ),
    {
        match key {
            Key::ArrowLeft => {
                self.press(Key::ArrowLeft);
                ram.write(self.keyboard_address, ARROW_LEFT_CODE);
            },
            Key::ArrowRight => {
                self.press(Key::ArrowRight);
                ram.write(self.keyboard_address, ARROW_RIGHT_CODE);
            },
            _ => {},
        }
    }

    fn handle_release(&mut self, key: Key, ram: &mut Ram)
        requires
            old(self).state is Pressed,
            old(self).keyboard_address < old(ram)@.len(),
        ensures
            final(self).keyboard_address == old(self).keyboard_address,
            final(self).state == after_event(old(self).state, key).0,
            final(ram)@ == latched(
                old(ram)@,
                old(self).keyboard_address as int,
                after_event(old(self).state, key).1,
            ),
    {
        match self.get_key() {
            Some(held) => {
                if held != key {
                    return ;
                }
            },
            None => {},
        }
        self.release();
        ram.write(self.keyboard_address, 0);
    }
}

} // verus!
