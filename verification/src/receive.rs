//! Posting receive buffers, and handing received frames on.

use vstd::prelude::*;
use crate::defs::{DEFAULT_TXD, E1000_RDT, E1000_RXD_STAT_DD, RXBUFFER_2048};
use crate::protocol::{Action, Fault, Protocol, Step};
use crate::resource::{Resource, reg_write};
use crate::ring::{Buffer, OnRing, Ring, Skb, after, next_slot};
use crate::E1000;

verus! {

/// A new receive buffer.
#[derive(Clone, Copy, PartialEq, Eq, Debug)]
pub struct RxBuffer {
    pub skb: Skb,
    /// Where the adapter sees the buffer.
    pub dma: u64,
}

/// What the adapter reports in a receive descriptor.
#[derive(Clone, Copy, PartialEq, Eq, Debug)]
pub struct RxStatus {
    pub status: u8,
    pub length: u16,
}

/// Posting receive buffers to the adapter.
#[derive(Clone, Copy, PartialEq, Eq, Debug)]
pub struct AllocRxBuffers {
    /// The descriptor to be filled.
    pub i: usize,
    /// Descriptors still to be filled, with that one.
    pub left: u16,
}

/// The descriptor before descriptor `i`.
pub open spec fn before(i: int) -> int {
    (i - 1) % DEFAULT_TXD as int
}

/// `left` descriptors of `ring` are to be filled from `i` on: the actions queued, the ring, and
/// where the procedure stands. When all are filled the adapter is told of the last one, unless the
/// position has not moved.
pub open spec fn fill(ring: Ring, i: int, left: u16) -> (
    Seq<Action>,
    Ring,
    Step<AllocRxBuffers, ()>,
) {
    if left > 0 {
        (
            seq![],
            ring,
            if ring.slot(i).skb is Some {
                Step::Fault(Fault::SlotInUse)
            } else {
                Step::Wait(AllocRxBuffers { i: i as usize, left })
            },
        )
    } else if i != ring.next_to_use {
        (
            seq![reg_write(E1000_RDT, before(i) as u32)],
            Ring { next_to_use: i as u16, ..ring },
            Step::Done(()),
        )
    } else {
        (seq![], ring, Step::Done(()))
    }
}

/// `ring` with the buffer `buffer` posted at descriptor `i`.
pub open spec fn posted(ring: Ring, i: int, buffer: RxBuffer) -> Ring {
    ring.with_slot(i, Buffer { skb: Some(buffer.skb), dma: buffer.dma, ..ring.slot(i) })
}

impl AllocRxBuffers {
    /// A descriptor of the ring is to be filled.
    pub open spec fn wf(self) -> bool {
        self.i < DEFAULT_TXD && self.left > 0
    }

    /// What a new buffer leads to: the actions queued, the ring, and where the procedure stands.
    pub open spec fn advance(self, ring: Ring, buffer: RxBuffer) -> (
        Seq<Action>,
        Ring,
        Step<AllocRxBuffers, ()>,
    ) {
        if buffer.dma == u64::MAX {
            (seq![], ring, Step::Fault(Fault::NotMapped))
        } else {
            let (actions, ring, step) = fill(
                posted(ring, self.i as int, buffer),
                after(self.i as int),
                (self.left - 1) as u16,
            );
            (
                seq![Action::PostRxDesc { slot: self.i, addr: buffer.dma }] + actions,
                ring,
                step,
            )
        }
    }
}

impl Protocol for OnRing<AllocRxBuffers> {
    type Request = u32;

    type Reply = RxBuffer;

    type Result = Ring;

    open spec fn asks(self) -> u32 {
        RXBUFFER_2048
    }

    open spec fn next(self, buffer: RxBuffer) -> (
        Seq<Action>,
        Step<OnRing<AllocRxBuffers>, Ring>,
    ) {
        let (actions, ring, step) = self.procedure.advance(self.ring, buffer);
        (
            actions,
            match step {
                Step::Wait(procedure) => Step::Wait(OnRing { procedure, ring }),
                Step::Done(_) => Step::Done(ring),
                Step::Fault(fault) => Step::Fault(fault),
            },
        )
    }
}

impl E1000 {
    /// Begins to post `cleaned_count` receive buffers.
    pub fn alloc_rx_buffers(re: &mut Resource, ring: &mut Ring, cleaned_count: u16) -> (step: Step<
        AllocRxBuffers,
        (),
    >)
        requires
            old(ring).wf(),
        ensures
            final(re)@ == old(re)@ + fill(
                *old(ring),
                old(ring).next_to_use as int,
                cleaned_count,
            ).0,
            *final(ring) == fill(*old(ring), old(ring).next_to_use as int, cleaned_count).1,
            step == fill(*old(ring), old(ring).next_to_use as int, cleaned_count).2,
            step matches Step::Wait(m) ==> m.wf(),
            final(ring).wf(),
    {
        let i: usize = ring.next_to_use as usize;
        AllocRxBuffers::fill_from(re, ring, i, cleaned_count)
    }
}

impl AllocRxBuffers {
    /// Bytes of the buffer that is wanted next.
    pub fn length(&self) -> (length: u32)
        ensures
            length == RXBUFFER_2048,
    {
        RXBUFFER_2048
    }

    /// Goes on to fill `left` descriptors from `i` on.
    fn fill_from(re: &mut Resource, ring: &mut Ring, i: usize, left: u16) -> (step: Step<
        AllocRxBuffers,
        (),
    >)
        requires
            old(ring).wf(),
            i < DEFAULT_TXD,
        ensures
            final(re)@ == old(re)@ + fill(*old(ring), i as int, left).0,
            *final(ring) == fill(*old(ring), i as int, left).1,
            step == fill(*old(ring), i as int, left).2,
            step matches Step::Wait(m) ==> m.wf(),
            final(ring).wf(),
    {
        assert(re@ =~= re@ + seq![]);
        if left > 0 {
            if ring.buffer_info[i].skb.is_some() {
                return Step::Fault(Fault::SlotInUse);
            }
            return Step::Wait(AllocRxBuffers { i, left });
        }
        if i as u16 != ring.next_to_use {
            ring.next_to_use = i as u16;
            let last: usize = if i == 0 {
                DEFAULT_TXD - 1
            } else {
                i - 1
            };
            re.ew32(E1000_RDT, last as u32);
        }
        Step::Done(())
    }

    /// Goes on with a new buffer.
    pub fn step(self, ring: &mut Ring, buffer: RxBuffer, re: &mut Resource) -> (step: Step<
        AllocRxBuffers,
        (),
    >)
        requires
            self.wf(),
            old(ring).wf(),
        ensures
            final(re)@ == old(re)@ + self.advance(*old(ring), buffer).0,
            *final(ring) == self.advance(*old(ring), buffer).1,
            step == self.advance(*old(ring), buffer).2,
            step matches Step::Wait(m) ==> m.wf(),
            final(ring).wf(),
    {
        if buffer.dma == u64::MAX {
            assert(re@ =~= re@ + seq![]);
            return Step::Fault(Fault::NotMapped);
        }
        let i: usize = self.i;
        let length: usize = ring.buffer_info[i].length;
        re.push(Action::PostRxDesc { slot: i, addr: buffer.dma });
        ring.buffer_info[i] = Buffer { skb: Some(buffer.skb), dma: buffer.dma, length };
        let step = AllocRxBuffers::fill_from(re, ring, next_slot(i), self.left - 1);
        assert(re@ =~= old(re)@ + self.advance(*old(ring), buffer).0);
        step
    }
}

/// Handing received frames on: from the oldest on, as far as the adapter is done with them.
#[derive(Clone, Copy, PartialEq, Eq, Debug)]
pub struct CleanRxIrq {
    /// The descriptor to be looked at.
    pub i: usize,
    /// Frames handed on so far.
    pub pkts_compl: usize,
    /// Their bytes.
    pub bytes_compl: u16,
}

/// The handing on, about to begin.
pub open spec fn clean_rx_irq(rx_ring: Ring) -> CleanRxIrq {
    CleanRxIrq { i: rx_ring.next_to_clean as usize, pkts_compl: 0, bytes_compl: 0 }
}

impl CleanRxIrq {
    /// The frames counted are those taken from `rx_ring`.
    pub open spec fn wf(self, rx_ring: Ring) -> bool {
        rx_ring.walked(self.i as int, self.pkts_compl as int)
    }

    /// What the report of the adapter leads to: the actions queued, the ring, and where the
    /// procedure stands. A frame ends in a checksum of four bytes, which is not handed on.
    pub open spec fn advance(self, rx_ring: Ring, desc: RxStatus) -> (
        Seq<Action>,
        Ring,
        Step<CleanRxIrq, usize>,
    ) {
        let info = rx_ring.slot(self.i as int);
        let emptied = rx_ring.emptied(self.i as int);
        let unmap = seq![Action::UnmapRx { dma: info.dma, length: RXBUFFER_2048 as usize }];
        if desc.status & (E1000_RXD_STAT_DD as u8) == 0 {
            (
                seq![
                    Action::RxStats {
                        bytes: self.bytes_compl as u64,
                        packets: self.pkts_compl as u64,
                    },
                ],
                Ring { next_to_clean: self.i as u16, ..rx_ring },
                Step::Done(self.pkts_compl),
            )
        } else {
            match info.skb {
                None => (unmap, emptied, Step::Fault(Fault::NoBuffer)),
                Some(skb) => if desc.length < 4 {
                    (unmap, emptied, Step::Fault(Fault::ShortFrame))
                } else {
                    let length = desc.length - 4;
                    (
                        unmap + seq![
                            Action::ReceiveSkb { skb: skb.handle, length: length as u32 },
                            Action::ClearRxDesc { slot: self.i },
                        ],
                        emptied,
                        if self.bytes_compl + length > u16::MAX {
                            Step::Fault(Fault::ByteCount)
                        } else {
                            Step::Wait(
                                CleanRxIrq {
                                    i: after(self.i as int) as usize,
                                    pkts_compl: (self.pkts_compl + 1) as usize,
                                    bytes_compl: (self.bytes_compl + length) as u16,
                                },
                            )
                        },
                    )
                },
            }
        }
    }
}

impl Protocol for OnRing<CleanRxIrq> {
    type Request = usize;

    type Reply = RxStatus;

    type Result = (usize, Ring);

    open spec fn asks(self) -> usize {
        self.procedure.i
    }

    open spec fn next(self, desc: RxStatus) -> (
        Seq<Action>,
        Step<OnRing<CleanRxIrq>, (usize, Ring)>,
    ) {
        let (actions, ring, step) = self.procedure.advance(self.ring, desc);
        (
            actions,
            match step {
                Step::Wait(procedure) => Step::Wait(OnRing { procedure, ring }),
                Step::Done(pkts_compl) => Step::Done((pkts_compl, ring)),
                Step::Fault(fault) => Step::Fault(fault),
            },
        )
    }
}

impl E1000 {
    /// Begins to hand received frames on.
    pub fn clean_rx_irq(rx_ring: &Ring) -> (clean: CleanRxIrq)
        requires
            rx_ring.wf(),
        ensures
            clean == clean_rx_irq(*rx_ring),
            clean.wf(*rx_ring),
    {
        CleanRxIrq { i: rx_ring.next_to_clean as usize, pkts_compl: 0, bytes_compl: 0 }
    }
}

impl CleanRxIrq {
    /// The descriptor whose status is to be read next.
    pub fn slot(&self) -> (slot: usize)
        ensures
            slot == self.i,
    {
        self.i
    }

    /// Goes on with the report of the adapter.
    pub fn step(self, rx_ring: &mut Ring, desc: RxStatus, re: &mut Resource) -> (step: Step<
        CleanRxIrq,
        usize,
    >)
        requires
            self.wf(*old(rx_ring)),
        ensures
            final(re)@ == old(re)@ + self.advance(*old(rx_ring), desc).0,
            *final(rx_ring) == self.advance(*old(rx_ring), desc).1,
            step == self.advance(*old(rx_ring), desc).2,
            step matches Step::Wait(m) ==> m.wf(*final(rx_ring)),
            step matches Step::Done(n) ==> n <= DEFAULT_TXD,
            final(rx_ring).wf(),
    {
        let CleanRxIrq { i, pkts_compl, bytes_compl } = self;
        if desc.status & (E1000_RXD_STAT_DD as u8) == 0 {
            re.push(Action::RxStats { bytes: bytes_compl as u64, packets: pkts_compl as u64 });
            rx_ring.next_to_clean = i as u16;
            return Step::Done(pkts_compl);
        }
        let mut length: u16 = desc.length;
        let info = rx_ring.buffer_info[i];
        re.push(Action::UnmapRx { dma: info.dma, length: RXBUFFER_2048 as usize });
        rx_ring.buffer_info[i] = Buffer { skb: None, dma: 0, length: info.length };
        match info.skb {
            None => Step::Fault(Fault::NoBuffer),
            Some(skb) => {
                if length < 4 {
                    return Step::Fault(Fault::ShortFrame);
                }
                length -= 4;
                re.push(Action::ReceiveSkb { skb: skb.handle, length: length as u32 });
                re.push(Action::ClearRxDesc { slot: i });
                assert(re@ =~= old(re)@ + self.advance(*old(rx_ring), desc).0);
                if bytes_compl > u16::MAX - length {
                    return Step::Fault(Fault::ByteCount);
                }
                proof {
                    old(rx_ring).lemma_walk(i as int, pkts_compl as int);
                }
                Step::Wait(
                    CleanRxIrq {
                        i: next_slot(i),
                        pkts_compl: pkts_compl + 1,
                        bytes_compl: bytes_compl + length,
                    },
                )
            },
        }
    }
}

/// A buffer with an address of all ones could not be mapped, and that is a fault; any other is
/// posted with the very address at which it was mapped, in the ring and in the descriptor.
pub proof fn law_buffer_posted(alloc: AllocRxBuffers, ring: Ring, buffer: RxBuffer)
    requires
        alloc.wf(),
        ring.wf(),
    ensures
        ({
            let (actions, next, step) = alloc.advance(ring, buffer);
            if buffer.dma == 0xffff_ffff_ffff_ffff {
                &&& actions == Seq::<Action>::empty()
                &&& next == ring
                &&& step == Step::<AllocRxBuffers, ()>::Fault(Fault::NotMapped)
            } else {
                &&& actions.len() > 0
                &&& actions[0] == (Action::PostRxDesc { slot: alloc.i, addr: buffer.dma })
                &&& next.slot(alloc.i as int).skb == Some(buffer.skb)
                &&& next.slot(alloc.i as int).dma == buffer.dma
                &&& next.slot(alloc.i as int).length == ring.slot(alloc.i as int).length
                &&& next.next_to_clean == ring.next_to_clean
                &&& next.dma_addr == ring.dma_addr
                &&& forall|k: int|
                    0 <= k < 128 && k != alloc.i ==> #[trigger] next.slot(k) == ring.slot(k)
            }
        }),
{
}

/// A descriptor that still has a buffer is not given another one; that is a fault.
pub proof fn law_slot_in_use(ring: Ring, i: int, left: u16)
    requires
        0 <= i < 128,
        left > 0,
    ensures
        fill(ring, i, left).2 == if ring.slot(i).skb is Some {
            Step::<AllocRxBuffers, ()>::Fault(Fault::SlotInUse)
        } else {
            Step::<AllocRxBuffers, ()>::Wait(AllocRxBuffers { i: i as usize, left })
        },
        fill(ring, i, left).0 == Seq::<Action>::empty(),
        fill(ring, i, left).1 == ring,
{
}

/// When no more buffers are to be posted, the adapter is told of the descriptor before the next one
/// to be filled, in its tail register, unless nothing was posted.
pub proof fn law_tail_told(ring: Ring, i: int)
    requires
        0 <= i < 128,
    ensures
        fill(ring, i, 0).2 == Step::<AllocRxBuffers, ()>::Done(()),
        fill(ring, i, 0).1 == (Ring { next_to_use: i as u16, ..ring }),
        i == ring.next_to_use ==> fill(ring, i, 0).0 == Seq::<Action>::empty(),
        i != ring.next_to_use ==> {
            &&& fill(ring, i, 0).0.len() == 1
            &&& fill(ring, i, 0).0[0] matches Action::Write { offset, value }
            &&& offset == 0x2818
            &&& (value + 1) % 128 == i
            &&& value < 128
        },
{
}

/// A descriptor that is done without a buffer is a fault, and so are a frame shorter than its four
/// bytes of checksum and bytes that do not fit their counter. In each case the buffer was unmapped
/// first, as it was mapped. Any other frame is handed on without its checksum, and counted.
pub proof fn law_clean_rx_faults(clean: CleanRxIrq, ring: Ring, desc: RxStatus)
    requires
        desc.status & 1 != 0,
    ensures
        ({
            let info = ring.slot(clean.i as int);
            let (actions, next, step) = clean.advance(ring, desc);
            &&& actions.len() > 0
            &&& actions[0] == (Action::UnmapRx { dma: info.dma, length: 2048 })
            &&& next == ring.emptied(clean.i as int)
            &&& info.skb is None ==> {
                &&& actions.len() == 1
                &&& step == Step::<CleanRxIrq, usize>::Fault(Fault::NoBuffer)
            }
            &&& info.skb matches Some(skb) ==> if desc.length < 4 {
                &&& actions.len() == 1
                &&& step == Step::<CleanRxIrq, usize>::Fault(Fault::ShortFrame)
            } else {
                &&& actions.len() == 3
                &&& actions[1] matches Action::ReceiveSkb { skb: handle, length }
                &&& handle == skb.handle
                &&& length + 4 == desc.length
                &&& actions[2] == (Action::ClearRxDesc { slot: clean.i })
                &&& if clean.bytes_compl + desc.length - 4 > u16::MAX {
                    step == Step::<CleanRxIrq, usize>::Fault(Fault::ByteCount)
                } else {
                    &&& step matches Step::Wait(m)
                    &&& m.pkts_compl == (clean.pkts_compl + 1) as usize
                    &&& m.bytes_compl == clean.bytes_compl + desc.length - 4
                    &&& m.i == (clean.i + 1) % 128
                }
            }
        }),
{
}

/// A descriptor that is not done ends the handing on, and is the first to be looked at next time.
/// What was handed on is counted and reported.
pub proof fn law_clean_rx_done(clean: CleanRxIrq, ring: Ring, desc: RxStatus)
    requires
        desc.status & 1 == 0,
        clean.i < 128,
    ensures
        ({
            let (actions, next, step) = clean.advance(ring, desc);
            &&& step == Step::<CleanRxIrq, usize>::Done(clean.pkts_compl)
            &&& next == (Ring { next_to_clean: clean.i as u16, ..ring })
            &&& actions == seq![
                Action::RxStats {
                    bytes: clean.bytes_compl as u64,
                    packets: clean.pkts_compl as u64,
                },
            ]
        }),
{
}

/// Every buffer asked for has 2048 bytes.
pub proof fn law_buffer_asked(alloc: OnRing<AllocRxBuffers>)
    ensures
        alloc.asks() == 2048,
{
}

/// Each buffer posted leaves one fewer to be posted, from the next descriptor on.
pub proof fn law_buffers_left(alloc: AllocRxBuffers, ring: Ring, buffer: RxBuffer)
    requires
        alloc.wf(),
    ensures
        alloc.advance(ring, buffer).2 matches Step::Wait(m) ==> {
            &&& m.left == alloc.left - 1
            &&& m.i == (alloc.i + 1) % 128
        },
        alloc.advance(ring, buffer).2 is Done ==> alloc.left == 1,
        alloc.left == 1 && buffer.dma != 0xffff_ffff_ffff_ffff ==> alloc.advance(
            ring,
            buffer,
        ).2 is Done,
{
}

} // verus!
