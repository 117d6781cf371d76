//! Processor: fetch, decode and execute of one instruction per step.
use vstd::prelude::*;

use crate::bus::Bus;
use crate::framebuffer::{draw_row, fb_wf, row_collides};
use crate::ram::{write_seq, RAM_SIZE};
use crate::stack::{Stack, STACK_SIZE};
use crate::ENTRY_POINT;

verus! {

/// Error that halts the current step.
#[derive(Debug, PartialEq, Eq, Structural, Clone, Copy)]
pub enum Chip8Error {
    /// A memory access reached or passed the end of the address space.
    OutOfBounds,
    /// A call was attempted with the call stack already full.
    StackOverflow,
    /// A return was attempted with the call stack empty.
    StackUnderflow,
    /// The opcode or sub-opcode is not part of the instruction set.
    UnknownInstruction,
}

/// Top nibble of an instruction word: the family selector.
pub open spec fn op_family(instruction: u16) -> u16 {
    instruction >> 12
}

/// Low 12 bits: an address or wide immediate.
pub open spec fn op_nnn(instruction: u16) -> u16 {
    instruction & 0x0fff
}

/// Low byte: a narrow immediate or sub-opcode selector.
pub open spec fn op_kk(instruction: u16) -> u8 {
    (instruction & 0x00ff) as u8
}

/// Second nibble: a register index.
pub open spec fn op_x(instruction: u16) -> u8 {
    ((instruction & 0x0f00) >> 8) as u8
}

/// Third nibble: a register index.
pub open spec fn op_y(instruction: u16) -> u8 {
    ((instruction & 0x00f0) >> 4) as u8
}

/// Low nibble: a small immediate or sub-opcode selector.
pub open spec fn op_n(instruction: u16) -> u8 {
    (instruction & 0x000f) as u8
}

/// The decoded fields lie in their nibble ranges.
pub proof fn lemma_decode_bounds(instruction: u16)
    ensures
        op_family(instruction) < 16,
        op_nnn(instruction) < 4096,
        op_x(instruction) < 16,
        op_y(instruction) < 16,
        op_n(instruction) < 16,
{
    assert((instruction >> 12) < 16) by (bit_vector);
    assert((instruction & 0x0fff) < 4096) by (bit_vector);
    assert(((instruction & 0x0f00) >> 8) < 16) by (bit_vector);
    assert(((instruction & 0x00f0) >> 4) < 16) by (bit_vector);
    assert((instruction & 0x000f) < 16) by (bit_vector);
}

/// A value reduced into 8 bits.
pub open spec fn wrap8(v: int) -> u8 {
    (v % 256) as u8
}

/// A value reduced into 16 bits.
pub open spec fn wrap16(v: int) -> u16 {
    (v % 0x10000) as u16
}

/// The whole machine state, as the contracts speak of it.
pub struct Machine {
    /// The 16 general registers.
    pub regs: Seq<u8>,
    /// The index register.
    pub i: u16,
    /// The delay timer.
    pub delay_timer: u8,
    /// The sound timer.
    pub sound_timer: u8,
    /// The program counter.
    pub pc: u16,
    /// The call stack, oldest return address first.
    pub stack: Seq<u16>,
    /// The memory bytes.
    pub mem: Seq<u8>,
    /// The display pixels.
    pub fb: Seq<u8>,
    /// The input latch.
    pub key: Option<u8>,
}

impl Machine {
    /// Every component has its stated size and shape.
    pub open spec fn wf(self) -> bool {
        &&& self.regs.len() == 16
        &&& self.stack.len() <= STACK_SIZE
        &&& self.mem.len() == RAM_SIZE
        &&& fb_wf(self.fb)
    }
}

/// The instruction word fetched big-endian at `pc`.
pub open spec fn fetch16(mem: Seq<u8>, pc: u16) -> u16 {
    ((mem[pc as int] as u16) << 8) | (mem[pc as int + 1] as u16)
}

/// Whether an arithmetic sub-opcode is part of the instruction set.
pub open spec fn alu_known(n: u8) -> bool {
    n <= 7 || n == 0xe
}

/// Register file after an arithmetic instruction with sub-opcode `n` on
/// registers `x` and `y`. Register 15 receives the carry, not-borrow or
/// shifted-out bit where the sub-opcode defines one; where both the result
/// and the flag land on register 15, the write order of the instruction
/// decides which value remains.
pub open spec fn alu_regs(regs: Seq<u8>, x: int, y: int, n: u8) -> Seq<u8> {
    let vx = regs[x];
    let vy = regs[y];
    if n == 0 {
        regs.update(x, vy)
    } else if n == 1 {
        regs.update(x, vx | vy)
    } else if n == 2 {
        regs.update(x, vx & vy)
    } else if n == 3 {
        regs.update(x, vx ^ vy)
    } else if n == 4 {
        regs.update(x, wrap8(vx + vy)).update(15, if vx + vy > 255 { 1u8 } else { 0u8 })
    } else if n == 5 {
        regs.update(15, if vx >= vy { 1u8 } else { 0u8 }).update(x, wrap8(vx - vy))
    } else if n == 6 {
        regs.update(15, vx & 1).update(x, vx >> 1)
    } else if n == 7 {
        regs.update(15, if vy >= vx { 1u8 } else { 0u8 }).update(x, wrap8(vy - vx))
    } else {
        regs.update(15, (vx & 0x80) >> 7).update(x, wrap8(vx * 2))
    }
}

/// The three decimal digits of `vx`: hundreds, tens, units.
pub open spec fn bcd(vx: u8) -> Seq<u8> {
    seq![vx / 100, (vx % 100) / 10, vx % 10]
}

/// Register file after loading registers 0 through `x` from memory at `i`.
pub open spec fn load_regs(regs: Seq<u8>, mem: Seq<u8>, i: u16, x: u8) -> Seq<u8> {
    Seq::new(16, |r: int| if r <= x { mem[i + r] } else { regs[r] })
}

/// Whether every row of a sprite of height `n` at index register `i` lies in
/// memory. Row addresses wrap at 16 bits before the bounds test.
pub open spec fn sprite_rows_ok(i: u16, n: u8) -> bool {
    forall|j: int| 0 <= j < n ==> #[trigger] wrap16(i + j) < RAM_SIZE
}

/// The `n` row bytes of a sprite read from memory at index register `i`.
pub open spec fn sprite_rows(mem: Seq<u8>, i: u16, n: u8) -> Seq<u8> {
    Seq::new(n as nat, |j: int| mem[wrap16(i + j) as int])
}

/// The display after the first `j` rows of a sprite have been composited at
/// `(x, y)`, each row one below the last, wrapping within 8 bits.
pub open spec fn draw_sprite_upto_fb(fb: Seq<u8>, x: u8, y: u8, rows: Seq<u8>, j: int) -> Seq<u8>
    decreases j,
{
    if j <= 0 {
        fb
    } else {
        let prev = draw_sprite_upto_fb(fb, x, y, rows, j - 1);
        draw_row(prev, x, wrap8(y + (j - 1)), rows[j - 1])
    }
}

/// Whether any of the first `j` rows reported a collision, each judged
/// against the display as the preceding rows left it.
pub open spec fn draw_sprite_upto_collides(
    fb: Seq<u8>,
    x: u8,
    y: u8,
    rows: Seq<u8>,
    j: int,
) -> bool
    decreases j,
{
    if j <= 0 {
        false
    } else {
        let prev = draw_sprite_upto_fb(fb, x, y, rows, j - 1);
        draw_sprite_upto_collides(fb, x, y, rows, j - 1) || row_collides(
            prev,
            x,
            wrap8(y + (j - 1)),
            rows[j - 1],
        )
    }
}

/// The display after a whole sprite has been composited at `(x, y)`.
pub open spec fn sprite_fb(fb: Seq<u8>, x: u8, y: u8, rows: Seq<u8>) -> Seq<u8> {
    draw_sprite_upto_fb(fb, x, y, rows, rows.len() as int)
}

/// Whether compositing a whole sprite at `(x, y)` reported a collision.
pub open spec fn sprite_collides(fb: Seq<u8>, x: u8, y: u8, rows: Seq<u8>) -> bool {
    draw_sprite_upto_collides(fb, x, y, rows, rows.len() as int)
}

/// The machine after executing the instruction word `instruction` on `m`,
/// or the error that halts the step. `rnd` is the byte the random source
/// yields, read only by the random-register instruction.
pub open spec fn exec_spec(m: Machine, instruction: u16, rnd: u8) -> Result<Machine, Chip8Error> {
    let family = op_family(instruction);
    let nnn = op_nnn(instruction);
    let kk = op_kk(instruction);
    let x = op_x(instruction) as int;
    let y = op_y(instruction) as int;
    let n = op_n(instruction);
    let vx = m.regs[x];
    let vy = m.regs[y];
    let pc2 = wrap16(m.pc + 2);
    let pc4 = wrap16(m.pc + 4);
    if family == 0x0 {
        if kk == 0x0e {
            Ok(Machine { fb: Seq::new(2048, |i: int| 0u8), pc: pc2, ..m })
        } else if kk == 0xee {
            if m.stack.len() == 0 {
                Err(Chip8Error::StackUnderflow)
            } else {
                Ok(Machine { pc: m.stack.last(), stack: m.stack.drop_last(), ..m })
            }
        } else {
            Err(Chip8Error::UnknownInstruction)
        }
    } else if family == 0x1 {
        Ok(Machine { pc: nnn, ..m })
    } else if family == 0x2 {
        if m.stack.len() == STACK_SIZE {
            Err(Chip8Error::StackOverflow)
        } else {
            Ok(Machine { stack: m.stack.push(pc2), pc: nnn, ..m })
        }
    } else if family == 0x3 {
        Ok(Machine { pc: if vx == kk { pc4 } else { pc2 }, ..m })
    } else if family == 0x4 {
        Ok(Machine { pc: if vx != kk { pc4 } else { pc2 }, ..m })
    } else if family == 0x5 {
        Ok(Machine { pc: if vx == vy { pc4 } else { pc2 }, ..m })
    } else if family == 0x6 {
        Ok(Machine { regs: m.regs.update(x, kk), pc: pc2, ..m })
    } else if family == 0x7 {
        Ok(Machine { regs: m.regs.update(x, wrap8(vx + kk)), pc: pc2, ..m })
    } else if family == 0x8 {
        if alu_known(n) {
            Ok(Machine { regs: alu_regs(m.regs, x, y, n), pc: pc2, ..m })
        } else {
            Err(Chip8Error::UnknownInstruction)
        }
    } else if family == 0x9 {
        Ok(Machine { pc: if vx != vy { pc4 } else { pc2 }, ..m })
    } else if family == 0xa {
        Ok(Machine { i: nnn, pc: pc2, ..m })
    } else if family == 0xb {
        Ok(Machine { pc: wrap16(m.regs[0] + nnn), ..m })
    } else if family == 0xc {
        Ok(Machine { regs: m.regs.update(x, rnd & kk), pc: pc2, ..m })
    } else if family == 0xd {
        if sprite_rows_ok(m.i, n) {
            let rows = sprite_rows(m.mem, m.i, n);
            Ok(
                Machine {
                    fb: sprite_fb(m.fb, vx, vy, rows),
                    regs: m.regs.update(15, if sprite_collides(m.fb, vx, vy, rows) { 1u8 } else { 0u8 }),
                    pc: pc2,
                    ..m
                },
            )
        } else {
            Err(Chip8Error::OutOfBounds)
        }
    } else if family == 0xe {
        if kk == 0x9e {
            Ok(Machine { pc: if m.key == Some(vx) { pc4 } else { pc2 }, ..m })
        } else if kk == 0xa1 {
            Ok(Machine { pc: if m.key != Some(vx) { pc4 } else { pc2 }, ..m })
        } else {
            Err(Chip8Error::UnknownInstruction)
        }
    } else if family == 0xf {
        if kk == 0x07 {
            Ok(Machine { regs: m.regs.update(x, m.delay_timer), pc: pc2, ..m })
        } else if kk == 0x0a {
            match m.key {
                None => Ok(m),
                Some(key) => Ok(Machine { regs: m.regs.update(x, key), pc: pc2, ..m }),
            }
        } else if kk == 0x15 {
            Ok(Machine { delay_timer: vx, pc: pc2, ..m })
        } else if kk == 0x18 {
            Ok(Machine { sound_timer: vx, pc: pc2, ..m })
        } else if kk == 0x1e {
            Ok(Machine { i: wrap16(m.i + vx), pc: pc2, ..m })
        } else if kk == 0x29 {
            Ok(Machine { i: (vx * 5) as u16, pc: pc2, ..m })
        } else if kk == 0x33 {
            if m.i + 3 >= RAM_SIZE {
                Err(Chip8Error::OutOfBounds)
            } else {
                Ok(Machine { mem: write_seq(m.mem, bcd(vx), m.i as int), pc: pc2, ..m })
            }
        } else if kk == 0x55 {
            if m.i + op_x(instruction) + 1 >= RAM_SIZE {
                Err(Chip8Error::OutOfBounds)
            } else {
                Ok(
                    Machine {
                        mem: write_seq(m.mem, m.regs.take(x + 1), m.i as int),
                        i: (m.i + x + 1) as u16,
                        pc: pc2,
                        ..m
                    },
                )
            }
        } else if kk == 0x65 {
            if m.i + op_x(instruction) >= RAM_SIZE {
                Err(Chip8Error::OutOfBounds)
            } else {
                Ok(
                    Machine {
                        regs: load_regs(m.regs, m.mem, m.i, op_x(instruction)),
                        i: (m.i + x + 1) as u16,
                        pc: pc2,
                        ..m
                    },
                )
            }
        } else {
            Err(Chip8Error::UnknownInstruction)
        }
    } else {
        Err(Chip8Error::UnknownInstruction)
    }
}

/// One whole step on `m`: fetch at `pc`, decode, execute. `rnd` is the byte
/// the random source yields for this step.
pub open spec fn step_spec(m: Machine, rnd: u8) -> Result<Machine, Chip8Error> {
    if m.pc + 1 >= RAM_SIZE {
        Err(Chip8Error::OutOfBounds)
    } else {
        exec_spec(m, fetch16(m.mem, m.pc), rnd)
    }
}

/// Whether one step can carry the machine from `pre` to `post`: some byte
/// from the random source makes the step succeed with `post` as the result.
/// For every instruction but the random-register one the byte is irrelevant.
pub open spec fn steps_to(pre: Machine, post: Machine) -> bool {
    exists|rnd: u8| step_spec(pre, rnd) == Ok::<Machine, Chip8Error>(post)
}

/// A step whose fetch lies in memory is the execution of the fetched word.
proof fn lemma_step_spec_fetch(m: Machine, rnd: u8)
    requires
        m.pc + 1 < RAM_SIZE,
    ensures
        step_spec(m, rnd) == exec_spec(m, fetch16(m.mem, m.pc), rnd),
{
}

/// Whether an instruction word is one of the conditional skips: skip on
/// immediate equality or inequality, on register equality or inequality, or
/// on the key latch.
pub open spec fn is_conditional_skip(instruction: u16) -> bool {
    ||| op_family(instruction) == 0x3
    ||| op_family(instruction) == 0x4
    ||| op_family(instruction) == 0x5
    ||| op_family(instruction) == 0x9
    ||| (op_family(instruction) == 0xe && (op_kk(instruction) == 0x9e || op_kk(instruction)
        == 0xa1))
}

/// The condition a conditional-skip instruction tests on machine `m`.
pub open spec fn skip_condition(m: Machine, instruction: u16) -> bool {
    let kk = op_kk(instruction);
    let vx = m.regs[op_x(instruction) as int];
    let vy = m.regs[op_y(instruction) as int];
    if op_family(instruction) == 0x3 {
        vx == kk
    } else if op_family(instruction) == 0x4 {
        vx != kk
    } else if op_family(instruction) == 0x5 {
        vx == vy
    } else if op_family(instruction) == 0x9 {
        vx != vy
    } else if kk == 0x9e {
        m.key == Some(vx)
    } else {
        m.key != Some(vx)
    }
}

/// Law: a conditional-skip instruction whose condition is false advances the
/// program counter by exactly 2, and one whose condition holds advances it
/// by exactly 4; nothing else changes.
pub proof fn lemma_conditional_skip_pc(m: Machine, rnd: u8)
    requires
        m.wf(),
        m.pc + 1 < RAM_SIZE,
        is_conditional_skip(fetch16(m.mem, m.pc)),
    ensures
        step_spec(m, rnd) == Ok::<Machine, Chip8Error>(
            Machine {
                pc: if skip_condition(m, fetch16(m.mem, m.pc)) {
                    (m.pc + 4) as u16
                } else {
                    (m.pc + 2) as u16
                },
                ..m
            },
        ),
{
}

/// Law: a call followed by the return it reaches leaves the program counter
/// at the instruction after the call, with the call stack as it was.
pub proof fn lemma_call_then_ret_restores_pc(m: Machine, rnd1: u8, rnd2: u8)
    requires
        m.wf(),
        m.pc + 1 < RAM_SIZE,
        op_family(fetch16(m.mem, m.pc)) == 0x2,
        m.stack.len() < STACK_SIZE,
        op_nnn(fetch16(m.mem, m.pc)) + 1 < RAM_SIZE,
        op_family(fetch16(m.mem, op_nnn(fetch16(m.mem, m.pc)))) == 0x0,
        op_kk(fetch16(m.mem, op_nnn(fetch16(m.mem, m.pc)))) == 0xee,
    ensures
        step_spec(m, rnd1) is Ok,
        step_spec(m, rnd1)->Ok_0.pc == op_nnn(fetch16(m.mem, m.pc)),
        step_spec(step_spec(m, rnd1)->Ok_0, rnd2) is Ok,
        step_spec(step_spec(m, rnd1)->Ok_0, rnd2)->Ok_0.pc == m.pc + 2,
        step_spec(step_spec(m, rnd1)->Ok_0, rnd2)->Ok_0.stack == m.stack,
{
    let instruction = fetch16(m.mem, m.pc);
    let target = op_nnn(instruction);
    let m1 = Machine { stack: m.stack.push((m.pc + 2) as u16), pc: target, ..m };
    assert(step_spec(m, rnd1) == Ok::<Machine, Chip8Error>(m1));
    assert(m1.stack.last() == (m.pc + 2) as u16);
    assert(m1.stack.drop_last() =~= m.stack);
}

/// The fixed bit-fields of one instruction word.
#[derive(Debug)]
pub struct InstructionData {
    /// The whole instruction word.
    pub instruction: u16,
    /// Low 12 bits.
    pub nnn: u16,
    /// Low byte.
    pub kk: u8,
    /// Second nibble.
    pub x: u8,
    /// Third nibble.
    pub y: u8,
    /// Low nibble.
    pub n: u8,
}

impl InstructionData {
    /// The fields are the bit-fields of the instruction word.
    pub open spec fn wf(self) -> bool {
        &&& self.nnn == op_nnn(self.instruction)
        &&& self.kk == op_kk(self.instruction)
        &&& self.x == op_x(self.instruction)
        &&& self.y == op_y(self.instruction)
        &&& self.n == op_n(self.instruction)
    }
}

/// Registers, program counter, index register, timers and call stack, plus
/// the step logic that drives a bus.
pub struct Cpu {
    /// The 16 general registers.
    pub vx: Vec<u8>,
    /// The index register.
    pub i: u16,
    /// The delay timer.
    pub delay_timer: u8,
    /// The sound timer.
    pub sound_timer: u8,
    /// The program counter.
    pub pc: u16,
    /// The call stack.
    pub stack: Stack,
}

/// Relies on rand::random: a byte drawn from the thread-local generator,
/// uniformly distributed over all byte values. Nothing is promised of the
/// value.
#[verifier::external_body]
fn random_byte() -> u8 {
    rand::random::<u8>()
}

impl Cpu {
    /// The register file is full-sized and the stack within bounds.
    pub open spec fn wf(&self) -> bool {
        &&& self.vx@.len() == 16
        &&& self.stack.wf()
    }

    /// The machine state this processor forms together with `bus`.
    pub open spec fn machine(&self, bus: Bus) -> Machine {
        Machine {
            regs: self.vx@,
            i: self.i,
            delay_timer: self.delay_timer,
            sound_timer: self.sound_timer,
            pc: self.pc,
            stack: self.stack@,
            mem: bus.mem(),
            fb: bus.fb(),
            key: bus.key(),
        }
    }

    /// Creates a processor with cleared registers and timers, an empty call
    /// stack, and the program counter at the entry point.
    pub fn new() -> (cpu: Self)
        ensures
            cpu.wf(),
            cpu.vx@ == Seq::new(16, |i: int| 0u8),
            cpu.i == 0,
            cpu.delay_timer == 0,
            cpu.sound_timer == 0,
            cpu.pc == ENTRY_POINT,
            cpu.stack@ == Seq::<u16>::empty(),
    {
        let cpu = Cpu {
            vx: vec![0u8; 16],
            i: 0,
            delay_timer: 0,
            sound_timer: 0,
            pc: ENTRY_POINT,
            stack: Stack::new(),
        };
        proof {
            assert(cpu.vx@ =~= Seq::new(16, |i: int| 0u8));
        }
        cpu
    }

    /// Writes `value` into register `x`.
    fn write_reg(&mut self, x: u8, value: u8)
        requires
            old(self).wf(),
            x < 16,
        ensures
            final(self).wf(),
            final(self).vx@ == old(self).vx@.update(x as int, value),
            final(self).i == old(self).i,
            final(self).delay_timer == old(self).delay_timer,
            final(self).sound_timer == old(self).sound_timer,
            final(self).pc == old(self).pc,
            final(self).stack == old(self).stack,
    {
        self.vx[x as usize] = value;
    }

    /// Reads register `x`.
    fn read_reg(&self, x: u8) -> (r: u8)
        requires
            self.wf(),
            x < 16,
        ensures
            r == self.vx@[x as int],
    {
        self.vx[x as usize]
    }

    /// Reads the two bytes at `pc` and `pc + 1` and combines them big-endian
    /// into an instruction word.
    pub fn fetch_instruction(&self, bus: &Bus) -> (r: Result<u16, Chip8Error>)
        requires
            self.wf(),
            bus.wf(),
        ensures
            self.pc + 1 < RAM_SIZE ==> r == Ok::<u16, Chip8Error>(fetch16(bus.mem(), self.pc)),
            self.pc + 1 >= RAM_SIZE ==> r == Err::<u16, Chip8Error>(Chip8Error::OutOfBounds),
    {
        let hi = match bus.read_ram(self.pc) {
            Ok(b) => b,
            Err(_) => {
                return Err(Chip8Error::OutOfBounds);
            },
        };
        let lo = match bus.read_ram(self.pc.wrapping_add(1)) {
            Ok(b) => b,
            Err(_) => {
                return Err(Chip8Error::OutOfBounds);
            },
        };
        Ok(((hi as u16) << 8) | (lo as u16))
    }

    /// Extracts the fixed bit-fields of an instruction word.
    pub fn parse_instruction(instruction: u16) -> (params: InstructionData)
        ensures
            params.instruction == instruction,
            params.wf(),
    {
        let nnn = instruction & 0x0fff;
        let kk = (instruction & 0x00ff) as u8;
        let x = ((instruction & 0x0f00) >> 8) as u8;
        let y = ((instruction & 0x00f0) >> 4) as u8;
        let n = (instruction & 0x000f) as u8;
        proof {
            assert((instruction & 0x00ff) < 256) by (bit_vector);
            assert(((instruction & 0x0f00) >> 8) < 16) by (bit_vector);
            assert(((instruction & 0x00f0) >> 4) < 16) by (bit_vector);
            assert((instruction & 0x000f) < 16) by (bit_vector);
        }
        InstructionData { instruction, nnn, kk, x, y, n }
    }

    /// Composites a sprite of `params.n` rows, read from memory at the index
    /// register, at the coordinates held in registers `params.x` and
    /// `params.y`, and writes the collision flag into register 15. Fails
    /// without any state change when a row address lies outside memory.
    fn draw(&mut self, bus: &mut Bus, params: InstructionData) -> (r: Result<(), Chip8Error>)
        requires
            old(self).wf(),
            old(bus).wf(),
            params.wf(),
        ensures
            final(self).wf(),
            final(bus).wf(),
            ({
                let m = old(self).machine(*old(bus));
                let n = op_n(params.instruction);
                let sx = m.regs[op_x(params.instruction) as int];
                let sy = m.regs[op_y(params.instruction) as int];
                if sprite_rows_ok(m.i, n) {
                    let rows = sprite_rows(m.mem, m.i, n);
                    &&& r == Ok::<(), Chip8Error>(())
                    &&& final(bus).fb() == sprite_fb(m.fb, sx, sy, rows)
                    &&& final(self).vx@ == m.regs.update(
                        15,
                        if sprite_collides(m.fb, sx, sy, rows) {
                            1u8
                        } else {
                            0u8
                        },
                    )
                    &&& final(bus).ram == old(bus).ram
                    &&& final(bus).keyboard == old(bus).keyboard
                    &&& final(self).i == old(self).i
                    &&& final(self).pc == old(self).pc
                    &&& final(self).delay_timer == old(self).delay_timer
                    &&& final(self).sound_timer == old(self).sound_timer
                    &&& final(self).stack == old(self).stack
                } else {
                    &&& r == Err::<(), Chip8Error>(Chip8Error::OutOfBounds)
                    &&& *final(self) == *old(self)
                    &&& *final(bus) == *old(bus)
                }
            }),
    {
        proof {
            lemma_decode_bounds(params.instruction);
        }
        let ghost m0 = self.machine(*bus);
        let sx = self.read_reg(params.x);
        let sy = self.read_reg(params.y);
        let height = params.n;

        let mut rows: Vec<u8> = Vec::new();
        let mut j: u8 = 0;
        while j < height
            invariant
                self.wf(),
                bus.wf(),
                *self == *old(self),
                *bus == *old(bus),
                m0 == old(self).machine(*old(bus)),
                params.wf(),
                height == params.n,
                j <= height,
                rows@.len() == j as int,
                forall|j2: int|
                    0 <= j2 < j ==> #[trigger] wrap16(m0.i + j2) < RAM_SIZE && rows@[j2]
                        == m0.mem[wrap16(m0.i + j2) as int],
            decreases height - j,
        {
            let address = self.i.wrapping_add(j as u16);
            proof {
                assert(address == wrap16(m0.i + j as int));
            }
            match bus.read_ram(address) {
                Ok(b) => {
                    rows.push(b);
                },
                Err(_) => {
                    proof {
                        assert(!sprite_rows_ok(m0.i, height));
                    }
                    return Err(Chip8Error::OutOfBounds);
                },
            }
            j = j + 1;
        }
        proof {
            assert(sprite_rows_ok(m0.i, height));
            assert(rows@ =~= sprite_rows(m0.mem, m0.i, height));
        }

        let mut collided = false;
        let mut row: u8 = 0;
        while row < height
            invariant
                self.wf(),
                bus.wf(),
                *self == *old(self),
                bus.ram == old(bus).ram,
                bus.keyboard == old(bus).keyboard,
                m0 == old(self).machine(*old(bus)),
                params.wf(),
                height == params.n,
                sx == m0.regs[op_x(params.instruction) as int],
                sy == m0.regs[op_y(params.instruction) as int],
                row <= height,
                rows@ == sprite_rows(m0.mem, m0.i, height),
                rows@.len() == height as int,
                bus.fb() == draw_sprite_upto_fb(m0.fb, sx, sy, rows@, row as int),
                collided == draw_sprite_upto_collides(m0.fb, sx, sy, rows@, row as int),
            decreases height - row,
        {
            let yy = sy.wrapping_add(row);
            let byte = rows[row as usize];
            proof {
                assert(yy == wrap8(sy as int + row as int));
            }
            if bus.draw(sx, yy, byte) {
                collided = true;
            }
            row = row + 1;
        }

        if collided {
            self.write_reg(0xf, 1);
        } else {
            self.write_reg(0xf, 0);
        }
        Ok(())
    }

    /// Decomposes register `x` into decimal digits and writes them at the index register.
    #[verifier::rlimit(60)]
    fn exec_bcd(&mut self, bus: &mut Bus, params: InstructionData) -> (r: Result<(), Chip8Error>)
        requires
            old(self).wf(),
            old(bus).wf(),
            params.wf(),
            old(self).pc + 1 < RAM_SIZE,
            op_family(params.instruction) == 0xf,
            op_kk(params.instruction) == 0x33,
        ensures
            final(self).wf(),
            final(bus).wf(),
            match r {
                Ok(()) => exists|rnd: u8|
                    exec_spec(old(self).machine(*old(bus)), params.instruction, rnd)
                        == Ok::<Machine, Chip8Error>(final(self).machine(*final(bus))),
                Err(e) => final(self).machine(*final(bus)) == old(self).machine(*old(bus))
                    && forall|rnd: u8|
                        exec_spec(old(self).machine(*old(bus)), params.instruction, rnd)
                            == Err::<Machine, Chip8Error>(e),
            },
    {
        proof {
            lemma_decode_bounds(params.instruction);
        }
        let ghost m0 = self.machine(*bus);
        let instruction = params.instruction;
        let vx = self.read_reg(params.x);
        let digits: Vec<u8> = vec![vx / 100, (vx % 100) / 10, vx % 10];
        proof {
            assert(digits@ =~= bcd(vx));
        }
        match bus.write_ram(digits.as_slice(), self.i) {
            Ok(_) => {
                self.pc = self.pc + 2;
                proof {
                    assert(exec_spec(m0, instruction, 0u8) == Ok::<
                        Machine,
                        Chip8Error,
                    >(self.machine(*bus)));
                }
                Ok(())
            },
            Err(_) => {
                proof {
                    assert(forall|rnd: u8|
                        exec_spec(m0, instruction, rnd) == Err::<
                            Machine,
                            Chip8Error,
                        >(Chip8Error::OutOfBounds));
                }
                Err(Chip8Error::OutOfBounds)
            },
        }
    }

    /// Writes registers 0 through `x` into memory at the index register, then advances it.
    #[verifier::rlimit(60)]
    fn exec_store_regs(&mut self, bus: &mut Bus, params: InstructionData) -> (r: Result<(), Chip8Error>)
        requires
            old(self).wf(),
            old(bus).wf(),
            params.wf(),
            old(self).pc + 1 < RAM_SIZE,
            op_family(params.instruction) == 0xf,
            op_kk(params.instruction) == 0x55,
        ensures
            final(self).wf(),
            final(bus).wf(),
            match r {
                Ok(()) => exists|rnd: u8|
                    exec_spec(old(self).machine(*old(bus)), params.instruction, rnd)
                        == Ok::<Machine, Chip8Error>(final(self).machine(*final(bus))),
                Err(e) => final(self).machine(*final(bus)) == old(self).machine(*old(bus))
                    && forall|rnd: u8|
                        exec_spec(old(self).machine(*old(bus)), params.instruction, rnd)
                            == Err::<Machine, Chip8Error>(e),
            },
    {
        proof {
            lemma_decode_bounds(params.instruction);
        }
        let ghost m0 = self.machine(*bus);
        let instruction = params.instruction;
        let mut data: Vec<u8> = Vec::new();
        let mut index: u8 = 0;
        while index <= params.x
            invariant
                self.wf(),
                bus.wf(),
                *self == *old(self),
                *bus == *old(bus),
                m0 == old(self).machine(*old(bus)),
                params.wf(),
                params.x < 16,
                index <= params.x + 1,
                data@ == m0.regs.take(index as int),
            decreases params.x + 1 - index,
        {
            let value = self.read_reg(index);
            data.push(value);
            index = index + 1;
            proof {
                assert(data@ =~= m0.regs.take(index as int));
            }
        }
        match bus.write_ram(data.as_slice(), self.i) {
            Ok(_) => {
                self.i = self.i + params.x as u16 + 1;
                self.pc = self.pc + 2;
                proof {
                    assert(exec_spec(m0, instruction, 0u8) == Ok::<
                        Machine,
                        Chip8Error,
                    >(self.machine(*bus)));
                }
                Ok(())
            },
            Err(_) => {
                proof {
                    assert(forall|rnd: u8|
                        exec_spec(m0, instruction, rnd) == Err::<
                            Machine,
                            Chip8Error,
                        >(Chip8Error::OutOfBounds));
                }
                Err(Chip8Error::OutOfBounds)
            },
        }
    }

    /// Loads registers 0 through `x` from memory at the index register, then advances it.
    #[verifier::rlimit(60)]
    fn exec_load_regs(&mut self, bus: &mut Bus, params: InstructionData) -> (r: Result<(), Chip8Error>)
        requires
            old(self).wf(),
            old(bus).wf(),
            params.wf(),
            old(self).pc + 1 < RAM_SIZE,
            op_family(params.instruction) == 0xf,
            op_kk(params.instruction) == 0x65,
        ensures
            final(self).wf(),
            final(bus).wf(),
            match r {
                Ok(()) => exists|rnd: u8|
                    exec_spec(old(self).machine(*old(bus)), params.instruction, rnd)
                        == Ok::<Machine, Chip8Error>(final(self).machine(*final(bus))),
                Err(e) => final(self).machine(*final(bus)) == old(self).machine(*old(bus))
                    && forall|rnd: u8|
                        exec_spec(old(self).machine(*old(bus)), params.instruction, rnd)
                            == Err::<Machine, Chip8Error>(e),
            },
    {
        proof {
            lemma_decode_bounds(params.instruction);
        }
        let ghost m0 = self.machine(*bus);
        let instruction = params.instruction;
        if (self.i as usize) + (params.x as usize) >= RAM_SIZE {
            proof {
                assert(forall|rnd: u8|
                    exec_spec(m0, instruction, rnd) == Err::<Machine, Chip8Error>(
                        Chip8Error::OutOfBounds,
                    ));
            }
            return Err(Chip8Error::OutOfBounds);
        }
        let mut index: u8 = 0;
        while index <= params.x
            invariant
                self.wf(),
                bus.wf(),
                *bus == *old(bus),
                m0 == old(self).machine(*old(bus)),
                params.wf(),
                params.x < 16,
                index <= params.x + 1,
                m0.i + params.x < RAM_SIZE,
                self.i == old(self).i,
                self.pc == old(self).pc,
                self.delay_timer == old(self).delay_timer,
                self.sound_timer == old(self).sound_timer,
                self.stack == old(self).stack,
                self.vx@.len() == 16,
                forall|r: int|
                    0 <= r < index ==> self.vx@[r] == m0.mem[m0.i + r],
                forall|r: int|
                    index <= r < 16 ==> self.vx@[r] == m0.regs[r],
            decreases params.x + 1 - index,
        {
            let value = match bus.read_ram(self.i + index as u16) {
                Ok(b) => b,
                Err(_) => {
                    proof {
                        assert(false);
                    }
                    0
                },
            };
            self.write_reg(index, value);
            index = index + 1;
        }
        proof {
            assert(self.vx@ =~= load_regs(m0.regs, m0.mem, m0.i, params.x));
        }
        self.i = self.i + params.x as u16 + 1;
        self.pc = self.pc + 2;
        proof {
            assert(exec_spec(m0, instruction, 0u8) == Ok::<Machine, Chip8Error>(
                self.machine(*bus),
            ));
        }
        Ok(())
    }

    /// Executes a system-family-zero instruction: clear display or return.
    fn exec_sys0(&mut self, bus: &mut Bus, params: InstructionData) -> (r: Result<(), Chip8Error>)
        requires
            old(self).wf(),
            old(bus).wf(),
            params.wf(),
            old(self).pc + 1 < RAM_SIZE,
            op_family(params.instruction) == 0x0,
        ensures
            final(self).wf(),
            final(bus).wf(),
            match r {
                Ok(()) => exists|rnd: u8|
                    exec_spec(old(self).machine(*old(bus)), params.instruction, rnd)
                        == Ok::<Machine, Chip8Error>(final(self).machine(*final(bus))),
                Err(e) => final(self).machine(*final(bus)) == old(self).machine(*old(bus))
                    && forall|rnd: u8|
                        exec_spec(old(self).machine(*old(bus)), params.instruction, rnd)
                            == Err::<Machine, Chip8Error>(e),
            },
    {
        proof {
            lemma_decode_bounds(params.instruction);
        }
        let ghost m0 = self.machine(*bus);
        let instruction = params.instruction;
        if params.kk == 0x0e {
            bus.clear_screen();
            self.pc = self.pc + 2;
            proof {
                assert(exec_spec(m0, instruction, 0u8) == Ok::<Machine, Chip8Error>(
                    self.machine(*bus),
                ));
            }
            Ok(())
        } else if params.kk == 0xee {
            match self.stack.pop() {
                Ok(address) => {
                    self.pc = address;
                    proof {
                        assert(exec_spec(m0, instruction, 0u8) == Ok::<
                            Machine,
                            Chip8Error,
                        >(self.machine(*bus)));
                    }
                    Ok(())
                },
                Err(_) => {
                    proof {
                        assert(forall|rnd: u8|
                            exec_spec(m0, instruction, rnd) == Err::<Machine, Chip8Error>(
                                Chip8Error::StackUnderflow,
                            ));
                    }
                    Err(Chip8Error::StackUnderflow)
                },
            }
        } else {
            proof {
                assert(forall|rnd: u8|
                    exec_spec(m0, instruction, rnd) == Err::<Machine, Chip8Error>(
                        Chip8Error::UnknownInstruction,
                    ));
            }
            Err(Chip8Error::UnknownInstruction)
        }
    }

    /// Executes an unconditional jump.
    fn exec_jump(&mut self, bus: &mut Bus, params: InstructionData) -> (r: Result<(), Chip8Error>)
        requires
            old(self).wf(),
            old(bus).wf(),
            params.wf(),
            old(self).pc + 1 < RAM_SIZE,
            op_family(params.instruction) == 0x1,
        ensures
            final(self).wf(),
            final(bus).wf(),
            match r {
                Ok(()) => exists|rnd: u8|
                    exec_spec(old(self).machine(*old(bus)), params.instruction, rnd)
                        == Ok::<Machine, Chip8Error>(final(self).machine(*final(bus))),
                Err(e) => final(self).machine(*final(bus)) == old(self).machine(*old(bus))
                    && forall|rnd: u8|
                        exec_spec(old(self).machine(*old(bus)), params.instruction, rnd)
                            == Err::<Machine, Chip8Error>(e),
            },
    {
        proof {
            lemma_decode_bounds(params.instruction);
        }
        let ghost m0 = self.machine(*bus);
        let instruction = params.instruction;
        self.pc = params.nnn;
        proof {
            assert(exec_spec(m0, instruction, 0u8) == Ok::<Machine, Chip8Error>(
                self.machine(*bus),
            ));
        }
        Ok(())
    }

    /// Executes a subroutine call: pushes the return address, jumps.
    fn exec_call(&mut self, bus: &mut Bus, params: InstructionData) -> (r: Result<(), Chip8Error>)
        requires
            old(self).wf(),
            old(bus).wf(),
            params.wf(),
            old(self).pc + 1 < RAM_SIZE,
            op_family(params.instruction) == 0x2,
        ensures
            final(self).wf(),
            final(bus).wf(),
            match r {
                Ok(()) => exists|rnd: u8|
                    exec_spec(old(self).machine(*old(bus)), params.instruction, rnd)
                        == Ok::<Machine, Chip8Error>(final(self).machine(*final(bus))),
                Err(e) => final(self).machine(*final(bus)) == old(self).machine(*old(bus))
                    && forall|rnd: u8|
                        exec_spec(old(self).machine(*old(bus)), params.instruction, rnd)
                            == Err::<Machine, Chip8Error>(e),
            },
    {
        proof {
            lemma_decode_bounds(params.instruction);
        }
        let ghost m0 = self.machine(*bus);
        let instruction = params.instruction;
        match self.stack.push(self.pc + 2) {
            Ok(_) => {
                self.pc = params.nnn;
                proof {
                    assert(exec_spec(m0, instruction, 0u8) == Ok::<Machine, Chip8Error>(
                        self.machine(*bus),
                    ));
                }
                Ok(())
            },
            Err(_) => {
                proof {
                    assert(forall|rnd: u8|
                        exec_spec(m0, instruction, rnd) == Err::<Machine, Chip8Error>(
                            Chip8Error::StackOverflow,
                        ));
                }
                Err(Chip8Error::StackOverflow)
            },
        }
    }

    /// Executes skip-if-register-equals-immediate.
    fn exec_skip_eq_imm(&mut self, bus: &mut Bus, params: InstructionData) -> (r: Result<(), Chip8Error>)
        requires
            old(self).wf(),
            old(bus).wf(),
            params.wf(),
            old(self).pc + 1 < RAM_SIZE,
            op_family(params.instruction) == 0x3,
        ensures
            final(self).wf(),
            final(bus).wf(),
            match r {
                Ok(()) => exists|rnd: u8|
                    exec_spec(old(self).machine(*old(bus)), params.instruction, rnd)
                        == Ok::<Machine, Chip8Error>(final(self).machine(*final(bus))),
                Err(e) => final(self).machine(*final(bus)) == old(self).machine(*old(bus))
                    && forall|rnd: u8|
                        exec_spec(old(self).machine(*old(bus)), params.instruction, rnd)
                            == Err::<Machine, Chip8Error>(e),
            },
    {
        proof {
            lemma_decode_bounds(params.instruction);
        }
        let ghost m0 = self.machine(*bus);
        let instruction = params.instruction;
        if self.read_reg(params.x) == params.kk {
            self.pc = self.pc + 2;
        }
        self.pc = self.pc + 2;
        proof {
            assert(exec_spec(m0, instruction, 0u8) == Ok::<Machine, Chip8Error>(
                self.machine(*bus),
            ));
        }
        Ok(())
    }

    /// Executes skip-if-register-differs-from-immediate.
    fn exec_skip_ne_imm(&mut self, bus: &mut Bus, params: InstructionData) -> (r: Result<(), Chip8Error>)
        requires
            old(self).wf(),
            old(bus).wf(),
            params.wf(),
            old(self).pc + 1 < RAM_SIZE,
            op_family(params.instruction) == 0x4,
        ensures
            final(self).wf(),
            final(bus).wf(),
            match r {
                Ok(()) => exists|rnd: u8|
                    exec_spec(old(self).machine(*old(bus)), params.instruction, rnd)
                        == Ok::<Machine, Chip8Error>(final(self).machine(*final(bus))),
                Err(e) => final(self).machine(*final(bus)) == old(self).machine(*old(bus))
                    && forall|rnd: u8|
                        exec_spec(old(self).machine(*old(bus)), params.instruction, rnd)
                            == Err::<Machine, Chip8Error>(e),
            },
    {
        proof {
            lemma_decode_bounds(params.instruction);
        }
        let ghost m0 = self.machine(*bus);
        let instruction = params.instruction;
        if self.read_reg(params.x) != params.kk {
            self.pc = self.pc + 2;
        }
        self.pc = self.pc + 2;
        proof {
            assert(exec_spec(m0, instruction, 0u8) == Ok::<Machine, Chip8Error>(
                self.machine(*bus),
            ));
        }
        Ok(())
    }

    /// Executes skip-if-registers-equal.
    fn exec_skip_eq_reg(&mut self, bus: &mut Bus, params: InstructionData) -> (r: Result<(), Chip8Error>)
        requires
            old(self).wf(),
            old(bus).wf(),
            params.wf(),
            old(self).pc + 1 < RAM_SIZE,
            op_family(params.instruction) == 0x5,
        ensures
            final(self).wf(),
            final(bus).wf(),
            match r {
                Ok(()) => exists|rnd: u8|
                    exec_spec(old(self).machine(*old(bus)), params.instruction, rnd)
                        == Ok::<Machine, Chip8Error>(final(self).machine(*final(bus))),
                Err(e) => final(self).machine(*final(bus)) == old(self).machine(*old(bus))
                    && forall|rnd: u8|
                        exec_spec(old(self).machine(*old(bus)), params.instruction, rnd)
                            == Err::<Machine, Chip8Error>(e),
            },
    {
        proof {
            lemma_decode_bounds(params.instruction);
        }
        let ghost m0 = self.machine(*bus);
        let instruction = params.instruction;
        if self.read_reg(params.x) == self.read_reg(params.y) {
            self.pc = self.pc + 2;
        }
        self.pc = self.pc + 2;
        proof {
            assert(exec_spec(m0, instruction, 0u8) == Ok::<Machine, Chip8Error>(
                self.machine(*bus),
            ));
        }
        Ok(())
    }

    /// Executes load-immediate into a register.
    fn exec_load_imm(&mut self, bus: &mut Bus, params: InstructionData) -> (r: Result<(), Chip8Error>)
        requires
            old(self).wf(),
            old(bus).wf(),
            params.wf(),
            old(self).pc + 1 < RAM_SIZE,
            op_family(params.instruction) == 0x6,
        ensures
            final(self).wf(),
            final(bus).wf(),
            match r {
                Ok(()) => exists|rnd: u8|
                    exec_spec(old(self).machine(*old(bus)), params.instruction, rnd)
                        == Ok::<Machine, Chip8Error>(final(self).machine(*final(bus))),
                Err(e) => final(self).machine(*final(bus)) == old(self).machine(*old(bus))
                    && forall|rnd: u8|
                        exec_spec(old(self).machine(*old(bus)), params.instruction, rnd)
                            == Err::<Machine, Chip8Error>(e),
            },
    {
        proof {
            lemma_decode_bounds(params.instruction);
        }
        let ghost m0 = self.machine(*bus);
        let instruction = params.instruction;
        self.write_reg(params.x, params.kk);
        self.pc = self.pc + 2;
        proof {
            assert(exec_spec(m0, instruction, 0u8) == Ok::<Machine, Chip8Error>(
                self.machine(*bus),
            ));
        }
        Ok(())
    }

    /// Executes add-immediate into a register, wrapping, flag untouched.
    fn exec_add_imm(&mut self, bus: &mut Bus, params: InstructionData) -> (r: Result<(), Chip8Error>)
        requires
            old(self).wf(),
            old(bus).wf(),
            params.wf(),
            old(self).pc + 1 < RAM_SIZE,
            op_family(params.instruction) == 0x7,
        ensures
            final(self).wf(),
            final(bus).wf(),
            match r {
                Ok(()) => exists|rnd: u8|
                    exec_spec(old(self).machine(*old(bus)), params.instruction, rnd)
                        == Ok::<Machine, Chip8Error>(final(self).machine(*final(bus))),
                Err(e) => final(self).machine(*final(bus)) == old(self).machine(*old(bus))
                    && forall|rnd: u8|
                        exec_spec(old(self).machine(*old(bus)), params.instruction, rnd)
                            == Err::<Machine, Chip8Error>(e),
            },
    {
        proof {
            lemma_decode_bounds(params.instruction);
        }
        let ghost m0 = self.machine(*bus);
        let instruction = params.instruction;
        let vx = self.read_reg(params.x);
        self.write_reg(params.x, vx.wrapping_add(params.kk));
        self.pc = self.pc + 2;
        proof {
            assert(vx.wrapping_add(params.kk) == wrap8(vx + params.kk));
            assert(exec_spec(m0, instruction, 0u8) == Ok::<Machine, Chip8Error>(
                self.machine(*bus),
            ));
        }
        Ok(())
    }

    /// Executes skip-if-registers-differ.
    fn exec_skip_ne_reg(&mut self, bus: &mut Bus, params: InstructionData) -> (r: Result<(), Chip8Error>)
        requires
            old(self).wf(),
            old(bus).wf(),
            params.wf(),
            old(self).pc + 1 < RAM_SIZE,
            op_family(params.instruction) == 0x9,
        ensures
            final(self).wf(),
            final(bus).wf(),
            match r {
                Ok(()) => exists|rnd: u8|
                    exec_spec(old(self).machine(*old(bus)), params.instruction, rnd)
                        == Ok::<Machine, Chip8Error>(final(self).machine(*final(bus))),
                Err(e) => final(self).machine(*final(bus)) == old(self).machine(*old(bus))
                    && forall|rnd: u8|
                        exec_spec(old(self).machine(*old(bus)), params.instruction, rnd)
                            == Err::<Machine, Chip8Error>(e),
            },
    {
        proof {
            lemma_decode_bounds(params.instruction);
        }
        let ghost m0 = self.machine(*bus);
        let instruction = params.instruction;
        if self.read_reg(params.x) != self.read_reg(params.y) {
            self.pc = self.pc + 2;
        }
        self.pc = self.pc + 2;
        proof {
            assert(exec_spec(m0, instruction, 0u8) == Ok::<Machine, Chip8Error>(
                self.machine(*bus),
            ));
        }
        Ok(())
    }

    /// Executes load of the index register.
    fn exec_set_index(&mut self, bus: &mut Bus, params: InstructionData) -> (r: Result<(), Chip8Error>)
        requires
            old(self).wf(),
            old(bus).wf(),
            params.wf(),
            old(self).pc + 1 < RAM_SIZE,
            op_family(params.instruction) == 0xa,
        ensures
            final(self).wf(),
            final(bus).wf(),
            match r {
                Ok(()) => exists|rnd: u8|
                    exec_spec(old(self).machine(*old(bus)), params.instruction, rnd)
                        == Ok::<Machine, Chip8Error>(final(self).machine(*final(bus))),
                Err(e) => final(self).machine(*final(bus)) == old(self).machine(*old(bus))
                    && forall|rnd: u8|
                        exec_spec(old(self).machine(*old(bus)), params.instruction, rnd)
                            == Err::<Machine, Chip8Error>(e),
            },
    {
        proof {
            lemma_decode_bounds(params.instruction);
        }
        let ghost m0 = self.machine(*bus);
        let instruction = params.instruction;
        self.i = params.nnn;
        self.pc = self.pc + 2;
        proof {
            assert(exec_spec(m0, instruction, 0u8) == Ok::<Machine, Chip8Error>(
                self.machine(*bus),
            ));
        }
        Ok(())
    }

    /// Executes jump to an address offset by register 0.
    fn exec_jump_offset(&mut self, bus: &mut Bus, params: InstructionData) -> (r: Result<(), Chip8Error>)
        requires
            old(self).wf(),
            old(bus).wf(),
            params.wf(),
            old(self).pc + 1 < RAM_SIZE,
            op_family(params.instruction) == 0xb,
        ensures
            final(self).wf(),
            final(bus).wf(),
            match r {
                Ok(()) => exists|rnd: u8|
                    exec_spec(old(self).machine(*old(bus)), params.instruction, rnd)
                        == Ok::<Machine, Chip8Error>(final(self).machine(*final(bus))),
                Err(e) => final(self).machine(*final(bus)) == old(self).machine(*old(bus))
                    && forall|rnd: u8|
                        exec_spec(old(self).machine(*old(bus)), params.instruction, rnd)
                            == Err::<Machine, Chip8Error>(e),
            },
    {
        proof {
            lemma_decode_bounds(params.instruction);
        }
        let ghost m0 = self.machine(*bus);
        let instruction = params.instruction;
        let v0 = self.read_reg(0);
        self.pc = (v0 as u16).wrapping_add(params.nnn);
        proof {
            assert(exec_spec(m0, instruction, 0u8) == Ok::<Machine, Chip8Error>(
                self.machine(*bus),
            ));
        }
        Ok(())
    }

    /// Executes the random-register instruction: a fresh random byte masked by the immediate.
    fn exec_random(&mut self, bus: &mut Bus, params: InstructionData) -> (r: Result<(), Chip8Error>)
        requires
            old(self).wf(),
            old(bus).wf(),
            params.wf(),
            old(self).pc + 1 < RAM_SIZE,
            op_family(params.instruction) == 0xc,
        ensures
            final(self).wf(),
            final(bus).wf(),
            match r {
                Ok(()) => exists|rnd: u8|
                    exec_spec(old(self).machine(*old(bus)), params.instruction, rnd)
                        == Ok::<Machine, Chip8Error>(final(self).machine(*final(bus))),
                Err(e) => final(self).machine(*final(bus)) == old(self).machine(*old(bus))
                    && forall|rnd: u8|
                        exec_spec(old(self).machine(*old(bus)), params.instruction, rnd)
                            == Err::<Machine, Chip8Error>(e),
            },
    {
        proof {
            lemma_decode_bounds(params.instruction);
        }
        let ghost m0 = self.machine(*bus);
        let instruction = params.instruction;
        let rnd = random_byte();
        self.write_reg(params.x, rnd & params.kk);
        self.pc = self.pc + 2;
        proof {
            assert(exec_spec(m0, instruction, rnd) == Ok::<Machine, Chip8Error>(
                self.machine(*bus),
            ));
        }
        Ok(())
    }

    /// Executes the sprite-draw instruction and sets the collision flag.
    fn exec_draw(&mut self, bus: &mut Bus, params: InstructionData) -> (r: Result<(), Chip8Error>)
        requires
            old(self).wf(),
            old(bus).wf(),
            params.wf(),
            old(self).pc + 1 < RAM_SIZE,
            op_family(params.instruction) == 0xd,
        ensures
            final(self).wf(),
            final(bus).wf(),
            match r {
                Ok(()) => exists|rnd: u8|
                    exec_spec(old(self).machine(*old(bus)), params.instruction, rnd)
                        == Ok::<Machine, Chip8Error>(final(self).machine(*final(bus))),
                Err(e) => final(self).machine(*final(bus)) == old(self).machine(*old(bus))
                    && forall|rnd: u8|
                        exec_spec(old(self).machine(*old(bus)), params.instruction, rnd)
                            == Err::<Machine, Chip8Error>(e),
            },
    {
        proof {
            lemma_decode_bounds(params.instruction);
        }
        let ghost m0 = self.machine(*bus);
        let instruction = params.instruction;
        match self.draw(bus, params) {
            Ok(_) => {
                self.pc = self.pc + 2;
                proof {
                    assert(exec_spec(m0, instruction, 0u8) == Ok::<Machine, Chip8Error>(
                        self.machine(*bus),
                    ));
                }
                Ok(())
            },
            Err(e) => {
                proof {
                    assert(forall|rnd: u8|
                        exec_spec(m0, instruction, rnd) == Err::<Machine, Chip8Error>(
                            Chip8Error::OutOfBounds,
                        ));
                }
                Err(e)
            },
        }
    }

    /// Executes the key-state conditional skips.
    fn exec_key_skip(&mut self, bus: &mut Bus, params: InstructionData) -> (r: Result<(), Chip8Error>)
        requires
            old(self).wf(),
            old(bus).wf(),
            params.wf(),
            old(self).pc + 1 < RAM_SIZE,
            op_family(params.instruction) == 0xe,
        ensures
            final(self).wf(),
            final(bus).wf(),
            match r {
                Ok(()) => exists|rnd: u8|
                    exec_spec(old(self).machine(*old(bus)), params.instruction, rnd)
                        == Ok::<Machine, Chip8Error>(final(self).machine(*final(bus))),
                Err(e) => final(self).machine(*final(bus)) == old(self).machine(*old(bus))
                    && forall|rnd: u8|
                        exec_spec(old(self).machine(*old(bus)), params.instruction, rnd)
                            == Err::<Machine, Chip8Error>(e),
            },
    {
        proof {
            lemma_decode_bounds(params.instruction);
        }
        let ghost m0 = self.machine(*bus);
        let instruction = params.instruction;
        if params.kk == 0x9e {
            let vx = self.read_reg(params.x);
            if bus.is_key_pressed(vx) {
                self.pc = self.pc + 4;
            } else {
                self.pc = self.pc + 2;
            }
            proof {
                assert(exec_spec(m0, instruction, 0u8) == Ok::<Machine, Chip8Error>(
                    self.machine(*bus),
                ));
            }
            Ok(())
        } else if params.kk == 0xa1 {
            let vx = self.read_reg(params.x);
            if !bus.is_key_pressed(vx) {
                self.pc = self.pc + 4;
            } else {
                self.pc = self.pc + 2;
            }
            proof {
                assert(exec_spec(m0, instruction, 0u8) == Ok::<Machine, Chip8Error>(
                    self.machine(*bus),
                ));
            }
            Ok(())
        } else {
            proof {
                assert(forall|rnd: u8|
                    exec_spec(m0, instruction, rnd) == Err::<Machine, Chip8Error>(
                        Chip8Error::UnknownInstruction,
                    ));
            }
            Err(Chip8Error::UnknownInstruction)
        }
    }

    /// Executes an arithmetic-family instruction.
    #[verifier::rlimit(60)]
    fn exec_alu(&mut self, bus: &mut Bus, params: InstructionData) -> (r: Result<(), Chip8Error>)
        requires
            old(self).wf(),
            old(bus).wf(),
            params.wf(),
            old(self).pc + 1 < RAM_SIZE,
            op_family(params.instruction) == 0x8,
        ensures
            final(self).wf(),
            final(bus).wf(),
            match r {
                Ok(()) => exists|rnd: u8|
                    exec_spec(old(self).machine(*old(bus)), params.instruction, rnd)
                        == Ok::<Machine, Chip8Error>(final(self).machine(*final(bus))),
                Err(e) => final(self).machine(*final(bus)) == old(self).machine(*old(bus))
                    && forall|rnd: u8|
                        exec_spec(old(self).machine(*old(bus)), params.instruction, rnd)
                            == Err::<Machine, Chip8Error>(e),
            },
    {
        proof {
            lemma_decode_bounds(params.instruction);
        }
        let ghost m0 = self.machine(*bus);
        let instruction = params.instruction;
        let vx = self.read_reg(params.x);
        let vy = self.read_reg(params.y);
        match params.n {
            0x0 => {
                self.write_reg(params.x, vy);
                self.pc = self.pc + 2;
                proof {
                    assert(exec_spec(m0, instruction, 0u8) == Ok::<Machine, Chip8Error>(
                        self.machine(*bus),
                    ));
                }
                Ok(())
            },
            0x1 => {
                self.write_reg(params.x, vx | vy);
                self.pc = self.pc + 2;
                proof {
                    assert(exec_spec(m0, instruction, 0u8) == Ok::<Machine, Chip8Error>(
                        self.machine(*bus),
                    ));
                }
                Ok(())
            },
            0x2 => {
                self.write_reg(params.x, vx & vy);
                self.pc = self.pc + 2;
                proof {
                    assert(exec_spec(m0, instruction, 0u8) == Ok::<Machine, Chip8Error>(
                        self.machine(*bus),
                    ));
                }
                Ok(())
            },
            0x3 => {
                self.write_reg(params.x, vx ^ vy);
                self.pc = self.pc + 2;
                proof {
                    assert(exec_spec(m0, instruction, 0u8) == Ok::<Machine, Chip8Error>(
                        self.machine(*bus),
                    ));
                }
                Ok(())
            },
            0x4 => {
                let sum = vx as u16 + vy as u16;
                let lo = (sum & 0xff) as u8;
                proof {
                    assert((sum & 0xff) == sum % 256 && (sum & 0xff) < 256) by (bit_vector);
                }
                self.write_reg(params.x, lo);
                if sum > 0xff {
                    self.write_reg(0xf, 1);
                } else {
                    self.write_reg(0xf, 0);
                }
                self.pc = self.pc + 2;
                proof {
                    assert(exec_spec(m0, instruction, 0u8) == Ok::<Machine, Chip8Error>(
                        self.machine(*bus),
                    ));
                }
                Ok(())
            },
            0x5 => {
                if vx >= vy {
                    self.write_reg(0xf, 1);
                } else {
                    self.write_reg(0xf, 0);
                }
                self.write_reg(params.x, vx.wrapping_sub(vy));
                self.pc = self.pc + 2;
                proof {
                    assert(vx.wrapping_sub(vy) == wrap8(vx - vy));
                    assert(exec_spec(m0, instruction, 0u8) == Ok::<Machine, Chip8Error>(
                        self.machine(*bus),
                    ));
                }
                Ok(())
            },
            0x6 => {
                self.write_reg(0xf, vx & 0x1);
                self.write_reg(params.x, vx >> 1);
                self.pc = self.pc + 2;
                proof {
                    assert(exec_spec(m0, instruction, 0u8) == Ok::<Machine, Chip8Error>(
                        self.machine(*bus),
                    ));
                }
                Ok(())
            },
            0x7 => {
                if vy >= vx {
                    self.write_reg(0xf, 1);
                } else {
                    self.write_reg(0xf, 0);
                }
                self.write_reg(params.x, vy.wrapping_sub(vx));
                self.pc = self.pc + 2;
                proof {
                    assert(vy.wrapping_sub(vx) == wrap8(vy - vx));
                    assert(exec_spec(m0, instruction, 0u8) == Ok::<Machine, Chip8Error>(
                        self.machine(*bus),
                    ));
                }
                Ok(())
            },
            0xe => {
                self.write_reg(0xf, (vx & 0x80) >> 7);
                let shifted = vx << 1;
                proof {
                    assert(vx << 1 == ((vx * 2) % 256)) by (bit_vector);
                }
                self.write_reg(params.x, shifted);
                self.pc = self.pc + 2;
                proof {
                    assert(exec_spec(m0, instruction, 0u8) == Ok::<Machine, Chip8Error>(
                        self.machine(*bus),
                    ));
                }
                Ok(())
            },
            _ => {
                proof {
                    assert(forall|rnd: u8|
                        exec_spec(m0, instruction, rnd) == Err::<Machine, Chip8Error>(
                            Chip8Error::UnknownInstruction,
                        ));
                }
                Err(Chip8Error::UnknownInstruction)
            },
        }
    }

    /// Executes a system-family instruction: timers, key wait, index
    /// arithmetic, glyph lookup, decimal decomposition, and the register
    /// file stores and loads.
    #[verifier::rlimit(100)]
    fn exec_sys(&mut self, bus: &mut Bus, params: InstructionData) -> (r: Result<(), Chip8Error>)
        requires
            old(self).wf(),
            old(bus).wf(),
            params.wf(),
            old(self).pc + 1 < RAM_SIZE,
            op_family(params.instruction) == 0xf,
        ensures
            final(self).wf(),
            final(bus).wf(),
            match r {
                Ok(()) => exists|rnd: u8|
                    exec_spec(old(self).machine(*old(bus)), params.instruction, rnd)
                        == Ok::<Machine, Chip8Error>(final(self).machine(*final(bus))),
                Err(e) => final(self).machine(*final(bus)) == old(self).machine(*old(bus))
                    && forall|rnd: u8|
                        exec_spec(old(self).machine(*old(bus)), params.instruction, rnd)
                            == Err::<Machine, Chip8Error>(e),
            },
    {
        proof {
            lemma_decode_bounds(params.instruction);
        }
        let ghost m0 = self.machine(*bus);
        let instruction = params.instruction;
        match params.kk {
            0x07 => {
                let dt = self.delay_timer;
                self.write_reg(params.x, dt);
                self.pc = self.pc + 2;
                proof {
                    assert(exec_spec(m0, instruction, 0u8) == Ok::<Machine, Chip8Error>(
                        self.machine(*bus),
                    ));
                }
                Ok(())
            },
            0x0a => {
                match bus.get_key_pressed() {
                    Some(key) => {
                        self.write_reg(params.x, key);
                        self.pc = self.pc + 2;
                    },
                    None => {},
                }
                proof {
                    assert(exec_spec(m0, instruction, 0u8) == Ok::<Machine, Chip8Error>(
                        self.machine(*bus),
                    ));
                }
                Ok(())
            },
            0x15 => {
                self.delay_timer = self.read_reg(params.x);
                self.pc = self.pc + 2;
                proof {
                    assert(exec_spec(m0, instruction, 0u8) == Ok::<Machine, Chip8Error>(
                        self.machine(*bus),
                    ));
                }
                Ok(())
            },
            0x18 => {
                self.sound_timer = self.read_reg(params.x);
                self.pc = self.pc + 2;
                proof {
                    assert(exec_spec(m0, instruction, 0u8) == Ok::<Machine, Chip8Error>(
                        self.machine(*bus),
                    ));
                }
                Ok(())
            },
            0x1e => {
                let vx = self.read_reg(params.x);
                self.i = self.i.wrapping_add(vx as u16);
                self.pc = self.pc + 2;
                proof {
                    assert(exec_spec(m0, instruction, 0u8) == Ok::<Machine, Chip8Error>(
                        self.machine(*bus),
                    ));
                }
                Ok(())
            },
            0x29 => {
                let vx = self.read_reg(params.x);
                self.i = vx as u16 * 5;
                self.pc = self.pc + 2;
                proof {
                    assert(exec_spec(m0, instruction, 0u8) == Ok::<Machine, Chip8Error>(
                        self.machine(*bus),
                    ));
                }
                Ok(())
            },
            0x33 => self.exec_bcd(bus, params),
            0x55 => self.exec_store_regs(bus, params),
            0x65 => self.exec_load_regs(bus, params),
            _ => {
                proof {
                    assert(forall|rnd: u8|
                        exec_spec(m0, instruction, rnd) == Err::<Machine, Chip8Error>(
                            Chip8Error::UnknownInstruction,
                        ));
                }
                Err(Chip8Error::UnknownInstruction)
            },
        }
    }

    /// Executes one decoded instruction: dispatches on the family selector
    /// and sub-opcode and mutates registers, memory, display and control
    /// flow as the instruction directs, or fails without any state change.
    fn execute(&mut self, bus: &mut Bus, params: InstructionData) -> (r: Result<(), Chip8Error>)
        requires
            old(self).wf(),
            old(bus).wf(),
            params.wf(),
            old(self).pc + 1 < RAM_SIZE,
        ensures
            final(self).wf(),
            final(bus).wf(),
            match r {
                Ok(()) => exists|rnd: u8|
                    exec_spec(old(self).machine(*old(bus)), params.instruction, rnd)
                        == Ok::<Machine, Chip8Error>(final(self).machine(*final(bus))),
                Err(e) => final(self).machine(*final(bus)) == old(self).machine(*old(bus))
                    && forall|rnd: u8|
                        exec_spec(old(self).machine(*old(bus)), params.instruction, rnd)
                            == Err::<Machine, Chip8Error>(e),
            },
    {
        proof {
            lemma_decode_bounds(params.instruction);
        }
        let ghost m0 = self.machine(*bus);
        let instruction = params.instruction;
        let family = instruction >> 12;
        match family {
            0x0 => self.exec_sys0(bus, params),
            0x1 => self.exec_jump(bus, params),
            0x2 => self.exec_call(bus, params),
            0x3 => self.exec_skip_eq_imm(bus, params),
            0x4 => self.exec_skip_ne_imm(bus, params),
            0x5 => self.exec_skip_eq_reg(bus, params),
            0x6 => self.exec_load_imm(bus, params),
            0x7 => self.exec_add_imm(bus, params),
            0x8 => self.exec_alu(bus, params),
            0x9 => self.exec_skip_ne_reg(bus, params),
            0xa => self.exec_set_index(bus, params),
            0xb => self.exec_jump_offset(bus, params),
            0xc => self.exec_random(bus, params),
            0xd => self.exec_draw(bus, params),
            0xe => self.exec_key_skip(bus, params),
            0xf => self.exec_sys(bus, params),
            _ => {
                proof {
                    assert(forall|rnd: u8|
                        exec_spec(m0, instruction, rnd) == Err::<Machine, Chip8Error>(
                            Chip8Error::UnknownInstruction,
                        ));
                }
                Err(Chip8Error::UnknownInstruction)
            },
        }
    }

    /// Runs one step: fetches the instruction word at the program counter,
    /// decodes it and executes it against `bus`.
    pub fn run(&mut self, bus: &mut Bus) -> (r: Result<(), Chip8Error>)
        requires
            old(self).wf(),
            old(bus).wf(),
        ensures
            final(self).wf(),
            final(bus).wf(),
            match r {
                Ok(()) => steps_to(old(self).machine(*old(bus)), final(self).machine(*final(bus))),
                Err(e) => final(self).machine(*final(bus)) == old(self).machine(*old(bus))
                    && forall|rnd: u8|
                        #[trigger] step_spec(old(self).machine(*old(bus)), rnd) == Err::<
                            Machine,
                            Chip8Error,
                        >(e),
            },
    {
        let ghost m0 = self.machine(*bus);
        let instruction = match self.fetch_instruction(bus) {
            Ok(word) => word,
            Err(e) => {
                return Err(e);
            },
        };
        let params = Self::parse_instruction(instruction);
        let r = self.execute(bus, params);
        proof {
            assert forall|rnd: u8|
                step_spec(m0, rnd) == exec_spec(m0, params.instruction, rnd) by {
                lemma_step_spec_fetch(m0, rnd);
            }
            match r {
                Ok(_) => {
                    let w = choose|rnd: u8|
                        exec_spec(m0, params.instruction, rnd) == Ok::<Machine, Chip8Error>(
                            self.machine(*bus),
                        );
                    assert(step_spec(m0, w) == Ok::<Machine, Chip8Error>(self.machine(*bus)));
                    assert(steps_to(m0, self.machine(*bus)));
                    assert(steps_to(old(self).machine(*old(bus)), self.machine(*bus)));
                },
                Err(_) => {},
            }
        }
        r
    }

    /// Decrements each timer that is above zero.
    pub fn tick_timers(&mut self)
        requires
            old(self).wf(),
        ensures
            final(self).wf(),
            final(self).delay_timer == if old(self).delay_timer > 0 {
                (old(self).delay_timer - 1) as u8
            } else {
                0u8
            },
            final(self).sound_timer == if old(self).sound_timer > 0 {
                (old(self).sound_timer - 1) as u8
            } else {
                0u8
            },
            final(self).vx == old(self).vx,
            final(self).i == old(self).i,
            final(self).pc == old(self).pc,
            final(self).stack == old(self).stack,
    {
        if self.delay_timer > 0 {
            self.delay_timer = self.delay_timer - 1;
        }
        if self.sound_timer > 0 {
            self.sound_timer = self.sound_timer - 1;
        }
    }
}

} // verus!
