//! The queue of actions, with the register accesses that the driver is written in.

use vstd::prelude::*;
use crate::defs::E1000_STATUS;
use crate::protocol::{Action, Fault, did, last_written};

verus! {

/// Write `value` to the register `reg`.
pub open spec fn reg_write(reg: u32, value: u32) -> Action {
    Action::Write { offset: reg as usize, value }
}

/// Read the status register, which forces posted writes out to the device.
pub open spec fn flush() -> Action {
    Action::Read { offset: E1000_STATUS as usize }
}

/// Write `value` to entry `index` of the register array at `reg`.
pub open spec fn array_write(reg: u32, index: u32, value: u32) -> Action {
    Action::Write { offset: (reg as usize + (index << 2) as usize) as usize, value }
}

/// Write `value` to the register at `offset` by way of the I/O ports from `io_base` on.
pub open spec fn io_write(io_base: u64, offset: u32, value: u32) -> Seq<Action> {
    if io_base + 4 <= u64::MAX {
        seq![
            Action::Outl { value: offset, port: io_base },
            Action::Outl { value, port: (io_base + 4) as u64 },
        ]
    } else {
        seq![Action::Outl { value: offset, port: io_base }]
    }
}

/// Access to the device: the actions queued for it, in order.
pub struct Resource {
    queue: Vec<Action>,
}

impl View for Resource {
    type V = Seq<Action>;

    closed spec fn view(&self) -> Seq<Action> {
        self.queue@
    }
}

impl Resource {
    /// An empty queue.
    pub fn new() -> (re: Resource)
        ensures
            re@ == Seq::<Action>::empty(),
    {
        Resource { queue: Vec::new() }
    }

    /// Hands out the queued actions and empties the queue.
    pub fn take(&mut self) -> (actions: Vec<Action>)
        ensures
            actions@ == old(self)@,
            final(self)@ == Seq::<Action>::empty(),
    {
        let mut actions: Vec<Action> = Vec::new();
        std::mem::swap(&mut actions, &mut self.queue);
        actions
    }

    /// Queues one action.
    pub fn push(&mut self, action: Action)
        ensures
            final(self)@ == old(self)@.push(action),
    {
        self.queue.push(action);
    }

    /// Queues a write of the register `reg`.
    pub fn ew32(&mut self, reg: u32, value: u32)
        ensures
            final(self)@ == old(self)@.push(reg_write(reg, value)),
    {
        self.push(Action::Write { offset: reg as usize, value });
    }

    /// Queues a read that forces posted writes out to the device.
    pub fn write_flush(&mut self)
        ensures
            final(self)@ == old(self)@.push(flush()),
    {
        self.push(Action::Read { offset: E1000_STATUS as usize });
    }

    /// Queues a write of the register at `offset` by way of the I/O ports from `io_base` on: the
    /// first takes the offset, the one four above it the value. Without that one the offset alone
    /// is queued.
    pub fn write_reg_io(&mut self, io_base: u64, offset: u32, value: u32) -> (written: Result<
        (),
        Fault,
    >)
        ensures
            final(self)@ == old(self)@ + io_write(io_base, offset, value),
            written == if io_base + 4 <= u64::MAX {
                Ok(())
            } else {
                Err(Fault::PortRange)
            },
    {
        self.push(Action::Outl { value: offset, port: io_base });
        if io_base > u64::MAX - 4 {
            return Err(Fault::PortRange);
        }
        self.push(Action::Outl { value, port: io_base + 4 });
        Ok(())
    }

    /// Queues a write of entry `index` of the register array at `reg`. Two bits of the index are
    /// shifted out.
    pub fn write_reg_array(&mut self, reg: u32, index: u32, value: u32)
        requires
            reg as usize + (index << 2) as usize <= usize::MAX,
        ensures
            final(self)@ == old(self)@.push(array_write(reg, index, value)),
    {
        self.push(Action::Write { offset: reg as usize + (index << 2) as usize, value });
    }
}

/// A write changes the register named, to the value named, and no other.
pub proof fn law_reg_write<Q, R>(reg: u32, value: u32, other: u32)
    ensures
        last_written(did::<Q, R>(seq![reg_write(reg, value)]), other) == if other == reg {
            Some(value)
        } else {
            None
        },
{
    reveal_with_fuel(last_written, 2);
    assert(did::<Q, R>(seq![reg_write(reg, value)]).drop_last() =~= seq![]);
}

/// The entries of a register array lie four bytes apart, and a write changes only the one named.
pub proof fn law_array_write<Q, R>(reg: u32, index: u32, value: u32, other: u32)
    requires
        index < 0x4000_0000,
        reg + 4 * index <= u32::MAX,
    ensures
        last_written(did::<Q, R>(seq![array_write(reg, index, value)]), other) == if other == reg
            + 4 * index {
            Some(value)
        } else {
            None
        },
{
    law_array_entry(reg, index, value);
    reveal_with_fuel(last_written, 2);
    assert(did::<Q, R>(seq![array_write(reg, index, value)]).drop_last() =~= seq![]);
}

/// An index is taken times four, without the two bits that this shifts out.
pub proof fn law_array_entry(reg: u32, index: u32, value: u32)
    ensures
        array_write(reg, index, value) == (Action::Write {
            offset: (reg + (4 * index) % 0x1_0000_0000) as usize,
            value,
        }),
{
    assert(index << 2 == (4 * index) % 0x1_0000_0000) by (bit_vector);
}

/// Writes are forced out by reading the status register, which lies eight bytes in.
pub proof fn law_flush()
    ensures
        flush() matches Action::Read { offset } && offset == 8,
{
}

/// The register writes, offset and value, that a device with its ports from `io_base` on sees in
/// `actions`: the first port takes an offset, which stays in force, and the port four above it a
/// value for the register there. `offset` was in force before.
pub open spec fn port_writes(io_base: u64, offset: u32, actions: Seq<Action>) -> Seq<(u32, u32)>
    decreases actions.len(),
{
    if actions.len() == 0 {
        seq![]
    } else {
        match actions[0] {
            Action::Outl { value, port } => if port == io_base {
                port_writes(io_base, value, actions.drop_first())
            } else if port == io_base + 4 {
                seq![(offset, value)] + port_writes(io_base, offset, actions.drop_first())
            } else {
                port_writes(io_base, offset, actions.drop_first())
            },
            _ => port_writes(io_base, offset, actions.drop_first()),
        }
    }
}

/// A write by way of the ports is one write of the register named, whatever offset was in force;
/// without the second port it is none.
pub proof fn law_io_write(io_base: u64, before: u32, offset: u32, value: u32)
    ensures
        port_writes(io_base, before, io_write(io_base, offset, value)) == if io_base + 4
            <= u64::MAX {
            seq![(offset, value)]
        } else {
            seq![]
        },
{
    reveal_with_fuel(port_writes, 3);
    let actions = io_write(io_base, offset, value);
    if io_base + 4 <= u64::MAX {
        assert(actions.drop_first().drop_first() =~= seq![]);
        assert(seq![(offset, value)] + seq![] =~= seq![(offset, value)]);
    } else {
        assert(actions.drop_first() =~= seq![]);
    }
}

} // verus!
