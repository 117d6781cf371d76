//! Flat 4096-byte address space with bounds-checked access.
use vstd::prelude::*;

verus! {

/// Number of bytes in the address space.
pub const RAM_SIZE: usize = 4096;

/// Error raised by an access outside the address space.
#[derive(Debug, PartialEq, Eq, Structural, Clone, Copy)]
pub enum RamError {
    /// The address (or, for a write, the address combined with the payload
    /// length) reaches or exceeds `RAM_SIZE`.
    OutOfBounds,
}

/// The contents of `mem` after `data` has been copied in at `address`.
pub open spec fn write_seq(mem: Seq<u8>, data: Seq<u8>, address: int) -> Seq<u8> {
    Seq::new(
        mem.len(),
        |j: int|
            if address <= j < address + data.len() {
                data[j - address]
            } else {
                mem[j]
            },
    )
}

/// Law: after a payload is written inside the address space, reading back
/// any of its bytes yields exactly the byte that was written there.
pub proof fn lemma_write_read_roundtrip(mem: Seq<u8>, data: Seq<u8>, address: int, i: int)
    requires
        mem.len() == RAM_SIZE,
        0 <= address < RAM_SIZE,
        address + data.len() < 4095,
        0 <= i < data.len(),
    ensures
        write_seq(mem, data, address)[address + i] == data[i],
{
}

/// Law: a write leaves every byte outside the written range unchanged.
pub proof fn lemma_write_preserves_rest(mem: Seq<u8>, data: Seq<u8>, address: int, j: int)
    requires
        mem.len() == RAM_SIZE,
        0 <= j < mem.len(),
        j < address || j >= address + data.len(),
    ensures
        write_seq(mem, data, address)[j] == mem[j],
{
}

/// A memory of exactly `RAM_SIZE` bytes.
pub struct Ram {
    memory: Vec<u8>,
}

impl View for Ram {
    type V = Seq<u8>;

    /// The byte at every address, in address order.
    closed spec fn view(&self) -> Seq<u8> {
        self.memory@
    }
}

impl Ram {
    /// The whole address space is backed.
    pub open spec fn wf(&self) -> bool {
        self@.len() == RAM_SIZE
    }

    /// Creates a memory holding all zeroes.
    pub fn new() -> (r: Self)
        ensures
            r.wf(),
            r@ == Seq::new(RAM_SIZE as nat, |i: int| 0u8),
    {
        let memory: Vec<u8> = vec![0u8; RAM_SIZE];
        let r = Ram { memory };
        proof {
            assert(r@ =~= Seq::new(RAM_SIZE as nat, |i: int| 0u8));
        }
        r
    }

    /// Copies `data` into memory at `address`: all of it, or none on a
    /// bounds failure. The boundary test rejects any write for which the
    /// address plus the payload length reaches the final address `RAM_SIZE`,
    /// so the very last byte is never written through this operation.
    pub fn write(&mut self, data: &[u8], address: usize) -> (r: Result<(), RamError>)
        requires
            old(self).wf(),
        ensures
            final(self).wf(),
            address + data@.len() >= RAM_SIZE ==> r == Err::<(), RamError>(RamError::OutOfBounds)
                && final(self)@ == old(self)@,
            address + data@.len() < RAM_SIZE ==> r == Ok::<(), RamError>(())
                && final(self)@ == write_seq(old(self)@, data@, address as int),
    {
        if address >= RAM_SIZE || data.len() >= RAM_SIZE - address {
            return Err(RamError::OutOfBounds);
        }
        let ghost mem0 = self@;
        let mut offset: usize = 0;
        while offset < data.len()
            invariant
                self.wf(),
                mem0.len() == RAM_SIZE,
                offset <= data@.len(),
                address + data@.len() < RAM_SIZE,
                self@ =~= write_seq(mem0, data@.take(offset as int), address as int),
            decreases data@.len() - offset,
        {
            self.memory[address + offset] = data[offset];
            offset = offset + 1;
            proof {
                assert(self@ =~= write_seq(mem0, data@.take(offset as int), address as int));
            }
        }
        proof {
            assert(data@.take(data@.len() as int) =~= data@);
        }
        Ok(())
    }

    /// Reads the byte at `address`, failing outside the address space.
    pub fn read(&self, address: usize) -> (r: Result<u8, RamError>)
        requires
            self.wf(),
        ensures
            address < RAM_SIZE ==> r == Ok::<u8, RamError>(self@[address as int]),
            address >= RAM_SIZE ==> r == Err::<u8, RamError>(RamError::OutOfBounds),
    {
        if address >= RAM_SIZE {
            return Err(RamError::OutOfBounds);
        }
        Ok(self.memory[address])
    }
}

} // verus!
