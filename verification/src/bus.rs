//! Mediator routing processor-issued memory, display and input operations to
//! the owned peripherals.
use vstd::prelude::*;

use crate::framebuffer::{draw_row, row_collides, Framebuffer};
use crate::keyboard::Keyboard;
use crate::ram::{write_seq, Ram, RamError, RAM_SIZE};

verus! {

/// Owns memory, display and input latch, and forwards every operation.
pub struct Bus {
    pub ram: Ram,
    pub keyboard: Keyboard,
    pub framebuffer: Framebuffer,
}

impl Bus {
    /// All owned peripherals are well formed.
    pub open spec fn wf(&self) -> bool {
        &&& self.ram.wf()
        &&& self.framebuffer.wf()
    }

    /// The bytes of memory.
    pub open spec fn mem(&self) -> Seq<u8> {
        self.ram@
    }

    /// The pixels of the display.
    pub open spec fn fb(&self) -> Seq<u8> {
        self.framebuffer@
    }

    /// The input latch.
    pub open spec fn key(&self) -> Option<u8> {
        self.keyboard.key_pressed
    }

    /// Creates a bus with zeroed memory, a clear display and no key pressed.
    pub fn new() -> (b: Self)
        ensures
            b.wf(),
            b.mem() == Seq::new(RAM_SIZE as nat, |i: int| 0u8),
            b.fb() == Seq::new(2048, |i: int| 0u8),
            b.key() == None::<u8>,
    {
        Bus { ram: Ram::new(), keyboard: Keyboard::new(), framebuffer: Framebuffer::new() }
    }

    /// Reads the memory byte at `address`.
    pub fn read_ram(&self, address: u16) -> (r: Result<u8, RamError>)
        requires
            self.wf(),
        ensures
            address < RAM_SIZE ==> r == Ok::<u8, RamError>(self.mem()[address as int]),
            address >= RAM_SIZE ==> r == Err::<u8, RamError>(RamError::OutOfBounds),
    {
        self.ram.read(address as usize)
    }

    /// Writes `data` into memory at `address`, all of it or none.
    pub fn write_ram(&mut self, data: &[u8], address: u16) -> (r: Result<(), RamError>)
        requires
            old(self).wf(),
        ensures
            final(self).wf(),
            final(self).framebuffer == old(self).framebuffer,
            final(self).keyboard == old(self).keyboard,
            address + data@.len() >= RAM_SIZE ==> r == Err::<(), RamError>(RamError::OutOfBounds)
                && final(self).mem() == old(self).mem(),
            address + data@.len() < RAM_SIZE ==> r == Ok::<(), RamError>(())
                && final(self).mem() == write_seq(old(self).mem(), data@, address as int),
    {
        self.ram.write(data, address as usize)
    }

    /// Clears the display.
    pub fn clear_screen(&mut self)
        requires
            old(self).wf(),
        ensures
            final(self).wf(),
            final(self).ram == old(self).ram,
            final(self).keyboard == old(self).keyboard,
            final(self).fb() == Seq::new(2048, |i: int| 0u8),
    {
        self.framebuffer.clear();
    }

    /// Returns the input latch verbatim.
    pub fn get_key_pressed(&self) -> (r: Option<u8>)
        ensures
            r == self.key(),
    {
        self.keyboard.get_key_pressed()
    }

    /// True exactly when the latch holds `key`.
    pub fn is_key_pressed(&self, key: u8) -> (r: bool)
        ensures
            r == (self.key() == Some(key)),
    {
        self.keyboard.is_key_pressed(key)
    }

    /// Replaces the input latch with `key`.
    pub fn set_key_pressed(&mut self, key: Option<u8>)
        requires
            old(self).wf(),
        ensures
            final(self).wf(),
            final(self).ram == old(self).ram,
            final(self).framebuffer == old(self).framebuffer,
            final(self).key() == key,
    {
        self.keyboard.set_key_pressed(key)
    }

    /// Composites one row byte onto the display, reporting collision.
    pub fn draw(&mut self, x: u8, y: u8, byte: u8) -> (r: bool)
        requires
            old(self).wf(),
        ensures
            final(self).wf(),
            final(self).ram == old(self).ram,
            final(self).keyboard == old(self).keyboard,
            final(self).fb() == draw_row(old(self).fb(), x, y, byte),
            r == row_collides(old(self).fb(), x, y, byte),
    {
        self.framebuffer.draw(x, y, byte)
    }

    /// The display pixels, row-major, one byte per pixel.
    pub fn get_framebuffer(&self) -> (r: &[u8])
        ensures
            r@ == self.fb(),
    {
        self.framebuffer.get_buffer()
    }
}

} // verus!
