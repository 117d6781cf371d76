//! A virtual machine for an 8-bit, byte-addressed instruction set: 16 general
//! registers, a 4KB memory, a bounded call stack, a 64x32 monochrome display
//! and a single-key input latch.
use vstd::prelude::*;

pub mod bus;
pub mod cpu;
pub mod framebuffer;
pub mod keyboard;
pub mod ram;
pub mod stack;

use crate::bus::Bus;
use crate::cpu::{step_spec, steps_to, Chip8Error, Cpu, Machine};
use crate::ram::{write_seq, RamError, RAM_SIZE};

verus! {

/// Address at which loaded programs begin, and initial program counter.
pub const ENTRY_POINT: u16 = 0x200;

/// The built-in font: 16 glyphs of 5 bytes each, one per hexadecimal digit,
/// placed at the bottom of memory so that the glyph for digit `d` starts at
/// address `d * 5`.
pub open spec fn font_seq() -> Seq<u8> {
    seq![
        0xF0u8, 0x90, 0x90, 0x90, 0xF0, 0x20, 0x60, 0x20, 0x20, 0x70, 0xF0, 0x10, 0xF0, 0x80,
        0xF0, 0xF0, 0x10, 0xF0, 0x10, 0xF0, 0x90, 0x90, 0xF0, 0x10, 0x10, 0xF0, 0x80, 0xF0, 0x10,
        0xF0, 0xF0, 0x80, 0xF0, 0x90, 0xF0, 0xF0, 0x10, 0x20, 0x40, 0x40, 0xF0, 0x90, 0xF0, 0x90,
        0xF0, 0xF0, 0x90, 0xF0, 0x10, 0xF0, 0xF0, 0x90, 0xF0, 0x90, 0x90, 0xE0, 0x90, 0xE0, 0x90,
        0xE0, 0xF0, 0x80, 0x80, 0x80, 0xF0, 0xE0, 0x90, 0x90, 0x90, 0xE0, 0xF0, 0x80, 0xF0, 0x80,
        0xF0, 0xF0, 0x80, 0xF0, 0x80, 0x80,
    ]
}

/// The machine as it stands right after construction: cleared registers,
/// timers, stack, display and latch, the font at the bottom of memory, and
/// the program counter at the entry point.
pub open spec fn boot_machine() -> Machine {
    Machine {
        regs: Seq::new(16, |i: int| 0u8),
        i: 0,
        delay_timer: 0,
        sound_timer: 0,
        pc: ENTRY_POINT,
        stack: Seq::<u16>::empty(),
        mem: write_seq(Seq::new(RAM_SIZE as nat, |i: int| 0u8), font_seq(), 0),
        fb: Seq::new(2048, |i: int| 0u8),
        key: None,
    }
}

/// The whole machine: a processor and the bus it drives.
pub struct Chip8 {
    /// The bus owning memory, display and input latch.
    pub bus: Bus,
    /// The processor owning registers, timers and the call stack.
    pub cpu: Cpu,
}

impl Chip8 {
    /// Processor and peripherals are well formed.
    pub open spec fn wf(&self) -> bool {
        &&& self.cpu.wf()
        &&& self.bus.wf()
    }

    /// The machine state.
    pub open spec fn machine(&self) -> Machine {
        self.cpu.machine(self.bus)
    }

    /// Creates a machine in its boot state, the font loaded byte for byte.
    pub fn new() -> (c: Self)
        ensures
            c.wf(),
            c.machine() == boot_machine(),
    {
        let mut bus = Bus::new();
        let font: Vec<u8> = vec![
            0xF0u8, 0x90, 0x90, 0x90, 0xF0, 0x20, 0x60, 0x20, 0x20, 0x70, 0xF0, 0x10, 0xF0, 0x80,
            0xF0, 0xF0, 0x10, 0xF0, 0x10, 0xF0, 0x90, 0x90, 0xF0, 0x10, 0x10, 0xF0, 0x80, 0xF0,
            0x10, 0xF0, 0xF0, 0x80, 0xF0, 0x90, 0xF0, 0xF0, 0x10, 0x20, 0x40, 0x40, 0xF0, 0x90,
            0xF0, 0x90, 0xF0, 0xF0, 0x90, 0xF0, 0x10, 0xF0, 0xF0, 0x90, 0xF0, 0x90, 0x90, 0xE0,
            0x90, 0xE0, 0x90, 0xE0, 0xF0, 0x80, 0x80, 0x80, 0xF0, 0xE0, 0x90, 0x90, 0x90, 0xE0,
            0xF0, 0x80, 0xF0, 0x80, 0xF0, 0xF0, 0x80, 0xF0, 0x80, 0x80,
        ];
        proof {
            assert(font@ =~= font_seq());
        }
        let _ = bus.write_ram(font.as_slice(), 0x0);
        let c = Chip8 { bus, cpu: Cpu::new() };
        proof {
            assert(c.machine() == boot_machine());
        }
        c
    }

    /// Writes a program image verbatim into memory starting at the entry
    /// point: all of it, or none on a bounds failure.
    pub fn set_program(&mut self, data: &[u8]) -> (r: Result<(), RamError>)
        requires
            old(self).wf(),
        ensures
            final(self).wf(),
            ENTRY_POINT + data@.len() >= RAM_SIZE ==> r == Err::<(), RamError>(
                RamError::OutOfBounds,
            ) && final(self).machine() == old(self).machine(),
            ENTRY_POINT + data@.len() < RAM_SIZE ==> r == Ok::<(), RamError>(())
                && final(self).machine() == (Machine {
                mem: write_seq(old(self).machine().mem, data@, ENTRY_POINT as int),
                ..old(self).machine()
            }),
    {
        self.bus.write_ram(data, ENTRY_POINT)
    }

    /// The display pixels, row-major, one byte per pixel, each 0 or 1.
    pub fn get_framebuffer(&self) -> (r: &[u8])
        ensures
            r@ == self.machine().fb,
    {
        self.bus.get_framebuffer()
    }

    /// Replaces the input latch with `key`.
    pub fn set_key_pressed(&mut self, key: Option<u8>)
        requires
            old(self).wf(),
        ensures
            final(self).wf(),
            final(self).machine() == (Machine { key, ..old(self).machine() }),
    {
        self.bus.set_key_pressed(key);
    }

    /// Runs one step: fetches, decodes and executes the instruction at the
    /// program counter.
    pub fn run(&mut self) -> (r: Result<(), Chip8Error>)
        requires
            old(self).wf(),
        ensures
            final(self).wf(),
            match r {
                Ok(()) => steps_to(old(self).machine(), final(self).machine()),
                Err(e) => final(self).machine() == old(self).machine() && forall|rnd: u8|
                    #[trigger] step_spec(old(self).machine(), rnd) == Err::<Machine, Chip8Error>(
                        e,
                    ),
            },
    {
        self.cpu.run(&mut self.bus)
    }

    /// Decrements each timer that is above zero.
    pub fn tick_timers(&mut self)
        requires
            old(self).wf(),
        ensures
            final(self).wf(),
            final(self).machine() == (Machine {
                delay_timer: if old(self).machine().delay_timer > 0 {
                    (old(self).machine().delay_timer - 1) as u8
                } else {
                    0u8
                },
                sound_timer: if old(self).machine().sound_timer > 0 {
                    (old(self).machine().sound_timer - 1) as u8
                } else {
                    0u8
                },
                ..old(self).machine()
            }),
    {
        self.cpu.tick_timers();
    }
}

impl Default for Chip8 {
    /// The boot-state machine.
    fn default() -> (c: Self)
        ensures
            c.wf(),
            c.machine() == boot_machine(),
    {
        Self::new()
    }
}

} // verus!
