//! Sending packets, and taking sent packets back.

use vstd::prelude::*;
use crate::defs::{
    E1000_TDT, E1000_TXD_CMD_EOP, E1000_TXD_CMD_IFCS, E1000_TXD_CMD_RS, E1000_TXD_STAT_DD, ETH_ZLEN,
};
use crate::protocol::{Action, Fault, Protocol, Reply, Request, Step};
use crate::resource::{Resource, reg_write};
use crate::ring::{Buffer, OnRing, Ring, Skb, after, next_slot};
use crate::E1000;

verus! {

/// A transmit descriptor.
#[derive(Clone, Copy, PartialEq, Eq, Debug)]
pub struct TxDesc {
    pub buffer_addr: u64,
    /// Command and length.
    pub lower: u32,
    /// Status.
    pub upper: u32,
}

/// What the driver needs to know of a packet to be sent.
#[derive(Clone, Copy, PartialEq, Eq, Debug)]
pub struct Packet {
    pub handle: usize,
    /// Bytes in all.
    pub len: u32,
    /// Bytes outside the first fragment.
    pub data_len: u32,
    pub gso_size: u16,
    pub nr_frags: u8,
}

/// The descriptor of a packet whose `size` bytes the adapter sees at `dma`: one frame, with its
/// checksum inserted and its end reported.
pub open spec fn packet_desc(dma: u64, size: u32) -> TxDesc {
    TxDesc {
        buffer_addr: dma,
        lower: size | E1000_TXD_CMD_EOP | E1000_TXD_CMD_IFCS | E1000_TXD_CMD_RS,
        upper: 0,
    }
}

/// A descriptor names the very address at which its packet was mapped, and starts out as not done.
/// It asks for the end of the packet, the checksum and a report, all three, and holds the size
/// beside these commands as long as the size leaves them room.
pub proof fn law_packet_desc(dma: u64, size: u32)
    ensures
        packet_desc(dma, size).buffer_addr == dma,
        packet_desc(dma, size).upper == 0,
        packet_desc(dma, size).lower & 0x0B00_0000 == 0x0B00_0000,
        packet_desc(dma, size).lower | 0x0B00_0000 == size | 0x0B00_0000,
        size < 0x100_0000 ==> packet_desc(dma, size).lower == size + 0x0B00_0000,
{
    let x = packet_desc(dma, size).lower;
    assert(x & 0x0B00_0000 == 0x0B00_0000 && x | 0x0B00_0000 == size | 0x0B00_0000 && (size
        < 0x100_0000 ==> x == size + 0x0B00_0000)) by (bit_vector)
        requires
            x == size | 0x0100_0000u32 | 0x0200_0000u32 | 0x0800_0000u32,
    ;
}

/// Sending a packet.
#[derive(Clone, Copy, PartialEq, Eq, Debug)]
pub enum Xmit {
    /// The packet is to be looked at.
    Inspect,
    /// The packet is fit to be sent and is to be mapped.
    Mapping { skb: Skb, size: u32 },
}

impl Xmit {
    /// The question that is open.
    pub open spec fn asks(self) -> Request {
        match self {
            Xmit::Inspect => Request::Packet,
            Xmit::Mapping { skb, size } => Request::MapPacket { length: size as usize },
        }
    }

    /// What an answer leads to: the actions queued, the ring, and where the procedure stands. An
    /// answer to another question leads to nothing.
    pub open spec fn advance(self, ring: Ring, reply: Reply) -> (
        Seq<Action>,
        Ring,
        Step<Xmit, i32>,
    ) {
        match (self, reply) {
            (Xmit::Inspect, Reply::Packet(packet)) => (
                seq![],
                ring,
                if packet.gso_size != 0 {
                    Step::Fault(Fault::Segmented)
                } else if packet.nr_frags != 0 {
                    Step::Fault(Fault::Fragmented)
                } else if packet.data_len > packet.len {
                    Step::Fault(Fault::BadLength)
                } else {
                    Step::Wait(
                        Xmit::Mapping {
                            skb: Skb { handle: packet.handle, len: packet.len },
                            size: (packet.len - packet.data_len) as u32,
                        },
                    )
                },
            ),
            (Xmit::Mapping { skb, size }, Reply::MapPacket(dma)) => if dma == u64::MAX {
                (seq![], ring, Step::Fault(Fault::NotMapped))
            } else {
                let i = ring.next_to_use as int;
                (
                    seq![
                        Action::SentQueue { bytes: skb.len },
                        Action::WriteTxDesc { slot: i as usize, desc: packet_desc(dma, size) },
                        reg_write(E1000_TDT, after(i) as u32),
                    ],
                    sent(ring, skb, dma, size),
                    Step::Done(0),
                )
            },
            _ => (seq![], ring, Step::Wait(self)),
        }
    }
}

/// `ring` after the packet `skb` was handed to the adapter.
pub open spec fn sent(ring: Ring, skb: Skb, dma: u64, size: u32) -> Ring {
    let i = ring.next_to_use as int;
    Ring {
        next_to_use: after(i) as u16,
        ..ring.with_slot(i, Buffer { skb: Some(skb), dma, length: size as usize })
    }
}

impl Protocol for OnRing<Xmit> {
    type Request = Request;

    type Reply = Reply;

    type Result = (i32, Ring);

    open spec fn asks(self) -> Request {
        self.procedure.asks()
    }

    open spec fn next(self, reply: Reply) -> (Seq<Action>, Step<OnRing<Xmit>, (i32, Ring)>) {
        let (actions, ring, step) = self.procedure.advance(self.ring, reply);
        (
            actions,
            match step {
                Step::Wait(procedure) => Step::Wait(OnRing { procedure, ring }),
                Step::Done(code) => Step::Done((code, ring)),
                Step::Fault(fault) => Step::Fault(fault),
            },
        )
    }
}

impl E1000 {
    /// Begins to send a packet.
    pub fn xmit(re: &mut Resource) -> (xmit: Xmit)
        ensures
            final(re)@ == old(re)@.push(Action::PadSkb { length: 60 }),
            xmit == Xmit::Inspect,
    {
        re.push(Action::PadSkb { length: ETH_ZLEN });
        Xmit::Inspect
    }
}

impl Xmit {
    /// The question that is open.
    pub fn request(&self) -> (request: Request)
        ensures
            request == self.asks(),
    {
        match self {
            Xmit::Inspect => Request::Packet,
            Xmit::Mapping { size, .. } => Request::MapPacket { length: *size as usize },
        }
    }

    /// Goes on with an answer.
    pub fn step(self, ring: &mut Ring, reply: Reply, re: &mut Resource) -> (step: Step<Xmit, i32>)
        requires
            old(ring).wf(),
        ensures
            final(re)@ == old(re)@ + self.advance(*old(ring), reply).0,
            *final(ring) == self.advance(*old(ring), reply).1,
            step == self.advance(*old(ring), reply).2,
            final(ring).wf(),
    {
        proof {
            assert(re@ =~= re@ + seq![]);
        }
        match (self, reply) {
            (Xmit::Inspect, Reply::Packet(packet)) => {
                if packet.gso_size != 0 {
                    return Step::Fault(Fault::Segmented);
                }
                if packet.nr_frags != 0 {
                    return Step::Fault(Fault::Fragmented);
                }
                if packet.data_len > packet.len {
                    return Step::Fault(Fault::BadLength);
                }
                let size: u32 = packet.len - packet.data_len;
                let skb = Skb { handle: packet.handle, len: packet.len };
                Step::Wait(Xmit::Mapping { skb, size })
            },
            (Xmit::Mapping { skb, size }, Reply::MapPacket(dma)) => {
                if dma == u64::MAX {
                    return Step::Fault(Fault::NotMapped);
                }
                let i: usize = ring.next_to_use as usize;
                ring.buffer_info[i] = Buffer { skb: Some(skb), dma, length: size as usize };
                re.push(Action::SentQueue { bytes: skb.len });
                let mut lower: u32 = E1000_TXD_CMD_IFCS | size;
                lower = lower | (E1000_TXD_CMD_EOP | E1000_TXD_CMD_IFCS | E1000_TXD_CMD_RS);
                assert(lower == size | 0x0100_0000u32 | 0x0200_0000u32 | 0x0800_0000u32)
                    by (bit_vector)
                    requires
                        lower == (0x0200_0000u32 | size) | (0x0100_0000u32 | 0x0200_0000u32
                            | 0x0800_0000u32),
                ;
                let desc = TxDesc { buffer_addr: dma, lower, upper: 0 };
                re.push(Action::WriteTxDesc { slot: i, desc });
                let i: usize = next_slot(i);
                ring.next_to_use = i as u16;
                re.ew32(E1000_TDT, i as u32);
                Step::Done(0)
            },
            (xmit, _) => Step::Wait(xmit),
        }
    }
}

/// Taking sent packets back: from the oldest on, as far as the adapter is done with them.
#[derive(Clone, Copy, PartialEq, Eq, Debug)]
pub struct CleanTxIrq {
    /// The descriptor to be looked at.
    pub i: usize,
    /// Packets taken back so far.
    pub pkts_compl: u32,
    /// Their bytes.
    pub bytes_compl: u32,
}

/// The taking back, about to begin.
pub open spec fn clean_tx_irq(tx_ring: Ring) -> CleanTxIrq {
    CleanTxIrq { i: tx_ring.next_to_clean as usize, pkts_compl: 0, bytes_compl: 0 }
}

impl CleanTxIrq {
    /// The packets counted are those taken back from `tx_ring`.
    pub open spec fn wf(self, tx_ring: Ring) -> bool {
        tx_ring.walked(self.i as int, self.pkts_compl as int)
    }

    /// What the status `upper` of the descriptor leads to: the actions queued, the ring, and
    /// where the procedure stands.
    pub open spec fn advance(self, tx_ring: Ring, upper: u32) -> (
        Seq<Action>,
        Ring,
        Step<CleanTxIrq, ()>,
    ) {
        let info = tx_ring.slot(self.i as int);
        let emptied = tx_ring.emptied(self.i as int);
        let unmap = seq![Action::UnmapTx { dma: info.dma, length: info.length }];
        let cleared = unmap.push(Action::ClearTxDesc { slot: self.i });
        if upper & E1000_TXD_STAT_DD == 0 {
            (
                seq![
                    Action::TxStats {
                        bytes: self.bytes_compl as u64,
                        packets: self.pkts_compl as u64,
                    },
                    Action::CompletedQueue { packets: self.pkts_compl, bytes: self.bytes_compl },
                ],
                Ring { next_to_clean: self.i as u16, ..tx_ring },
                Step::Done(()),
            )
        } else {
            match info.skb {
                None => (unmap, emptied, Step::Fault(Fault::NoBuffer)),
                Some(skb) => if self.bytes_compl + skb.len > u32::MAX {
                    (cleared, emptied, Step::Fault(Fault::ByteCount))
                } else {
                    (
                        cleared.push(Action::ConsumeSkb { skb: skb.handle, budget: 64 }),
                        emptied,
                        Step::Wait(
                            CleanTxIrq {
                                i: after(self.i as int) as usize,
                                pkts_compl: (self.pkts_compl + 1) as u32,
                                bytes_compl: (self.bytes_compl + skb.len) as u32,
                            },
                        ),
                    )
                },
            }
        }
    }
}

impl Protocol for OnRing<CleanTxIrq> {
    type Request = usize;

    type Reply = u32;

    type Result = Ring;

    open spec fn asks(self) -> usize {
        self.procedure.i
    }

    open spec fn next(self, upper: u32) -> (Seq<Action>, Step<OnRing<CleanTxIrq>, Ring>) {
        let (actions, ring, step) = self.procedure.advance(self.ring, upper);
        (
            actions,
            match step {
                Step::Wait(procedure) => Step::Wait(OnRing { procedure, ring }),
                Step::Done(_) => Step::Done(ring),
                Step::Fault(fault) => Step::Fault(fault),
            },
        )
    }
}

impl E1000 {
    /// Begins to take sent packets back.
    pub fn clean_tx_irq(tx_ring: &Ring) -> (clean: CleanTxIrq)
        requires
            tx_ring.wf(),
        ensures
            clean == clean_tx_irq(*tx_ring),
            clean.wf(*tx_ring),
    {
        CleanTxIrq { i: tx_ring.next_to_clean as usize, pkts_compl: 0, bytes_compl: 0 }
    }
}

impl CleanTxIrq {
    /// The descriptor whose status is to be read next.
    pub fn slot(&self) -> (slot: usize)
        ensures
            slot == self.i,
    {
        self.i
    }

    /// Goes on with the status `upper` of the descriptor.
    pub fn step(self, tx_ring: &mut Ring, upper: u32, re: &mut Resource) -> (step: Step<
        CleanTxIrq,
        (),
    >)
        requires
            self.wf(*old(tx_ring)),
        ensures
            final(re)@ == old(re)@ + self.advance(*old(tx_ring), upper).0,
            *final(tx_ring) == self.advance(*old(tx_ring), upper).1,
            step == self.advance(*old(tx_ring), upper).2,
            step matches Step::Wait(m) ==> m.wf(*final(tx_ring)),
            final(tx_ring).wf(),
    {
        let CleanTxIrq { i, pkts_compl, bytes_compl } = self;
        if upper & E1000_TXD_STAT_DD == 0 {
            re.push(Action::TxStats { bytes: bytes_compl as u64, packets: pkts_compl as u64 });
            tx_ring.next_to_clean = i as u16;
            re.push(Action::CompletedQueue { packets: pkts_compl, bytes: bytes_compl });
            return Step::Done(());
        }
        let info = tx_ring.buffer_info[i];
        re.push(Action::UnmapTx { dma: info.dma, length: info.length });
        tx_ring.buffer_info[i] = Buffer { skb: None, dma: 0, length: info.length };
        match info.skb {
            None => Step::Fault(Fault::NoBuffer),
            Some(skb) => {
                re.push(Action::ClearTxDesc { slot: i });
                if bytes_compl > u32::MAX - skb.len {
                    return Step::Fault(Fault::ByteCount);
                }
                re.push(Action::ConsumeSkb { skb: skb.handle, budget: 64 });
                proof {
                    old(tx_ring).lemma_walk(i as int, pkts_compl as int);
                }
                Step::Wait(
                    CleanTxIrq {
                        i: next_slot(i),
                        pkts_compl: pkts_compl + 1,
                        bytes_compl: bytes_compl + skb.len,
                    },
                )
            },
        }
    }
}

/// A packet is fit to be sent just when it asks for no segmentation, is in one fragment and has no
/// more bytes outside it than in all. Then its bytes in the first fragment are mapped; otherwise it
/// is a fault, and nothing is done either way.
pub proof fn law_packet_inspected(ring: Ring, packet: Packet)
    ensures
        ({
            let (actions, next, step) = Xmit::Inspect.advance(ring, Reply::Packet(packet));
            &&& actions == Seq::<Action>::empty()
            &&& next == ring
            &&& packet.gso_size != 0 ==> step == Step::<Xmit, i32>::Fault(Fault::Segmented)
            &&& packet.gso_size == 0 && packet.nr_frags != 0 ==> step == Step::<Xmit, i32>::Fault(
                Fault::Fragmented,
            )
            &&& packet.gso_size == 0 && packet.nr_frags == 0 && packet.data_len > packet.len
                ==> step == Step::<Xmit, i32>::Fault(Fault::BadLength)
            &&& packet.gso_size == 0 && packet.nr_frags == 0 && packet.data_len <= packet.len ==> {
                &&& step matches Step::Wait(Xmit::Mapping { skb, size })
                &&& skb == (Skb { handle: packet.handle, len: packet.len })
                &&& size == packet.len - packet.data_len
                &&& step->Wait_0.asks() == (Request::MapPacket { length: size as usize })
            }
        }),
{
}

/// An address of all ones says that the packet could not be mapped, and no other address does.
pub proof fn law_packet_unmapped(ring: Ring, skb: Skb, size: u32, dma: u64)
    ensures
        ({
            let (actions, next, step) = (Xmit::Mapping { skb, size }).advance(
                ring,
                Reply::MapPacket(dma),
            );
            if dma == 0xffff_ffff_ffff_ffff {
                actions == Seq::<Action>::empty() && next == ring && step == Step::<
                    Xmit,
                    i32,
                >::Fault(Fault::NotMapped)
            } else {
                &&& step == Step::<Xmit, i32>::Done(0)
                &&& actions.len() == 3
                &&& actions[0] == (Action::SentQueue { bytes: skb.len })
                &&& actions[1] matches Action::WriteTxDesc { slot, desc }
                &&& slot == ring.next_to_use
                &&& desc.buffer_addr == dma
            }
        }),
{
}

/// A descriptor that is done without a packet is a fault, and so are bytes that do not fit their
/// counter. In both cases the buffer was unmapped first, as it was mapped. Any other packet has its
/// descriptor cleared and is given back, and counted.
pub proof fn law_clean_tx_faults(clean: CleanTxIrq, ring: Ring, upper: u32)
    requires
        upper & 1 != 0,
    ensures
        ({
            let info = ring.slot(clean.i as int);
            let (actions, next, step) = clean.advance(ring, upper);
            &&& actions.len() > 0
            &&& actions[0] == (Action::UnmapTx { dma: info.dma, length: info.length })
            &&& next == ring.emptied(clean.i as int)
            &&& info.skb is None ==> {
                &&& actions.len() == 1
                &&& step == Step::<CleanTxIrq, ()>::Fault(Fault::NoBuffer)
            }
            &&& info.skb is Some ==> {
                &&& actions.len() >= 2
                &&& actions[1] == (Action::ClearTxDesc { slot: clean.i })
            }
            &&& info.skb matches Some(skb) ==> if clean.bytes_compl + skb.len > u32::MAX {
                &&& actions.len() == 2
                &&& step == Step::<CleanTxIrq, ()>::Fault(Fault::ByteCount)
            } else {
                &&& actions.len() == 3
                &&& step matches Step::Wait(m)
                &&& m.pkts_compl == (clean.pkts_compl + 1) as u32
                &&& m.bytes_compl == clean.bytes_compl + skb.len
                &&& m.i == (clean.i + 1) % 128
                &&& actions.last() == (Action::ConsumeSkb { skb: skb.handle, budget: 64 })
            }
        }),
{
}

/// A descriptor that is not done ends the taking back, and is the first to be looked at next time.
/// What was taken back is counted once, in both places.
pub proof fn law_clean_tx_done(clean: CleanTxIrq, ring: Ring, upper: u32)
    requires
        upper & 1 == 0,
        clean.i < 128,
    ensures
        ({
            let (actions, next, step) = clean.advance(ring, upper);
            &&& step == Step::<CleanTxIrq, ()>::Done(())
            &&& next == (Ring { next_to_clean: clean.i as u16, ..ring })
            &&& actions == seq![
                Action::TxStats {
                    bytes: clean.bytes_compl as u64,
                    packets: clean.pkts_compl as u64,
                },
                Action::CompletedQueue { packets: clean.pkts_compl, bytes: clean.bytes_compl },
            ]
        }),
{
}

/// An answer to a question that is not open changes nothing.
pub proof fn law_xmit_waits(xmit: Xmit, ring: Ring, reply: Reply)
    requires
        xmit is Inspect ==> !(reply is Packet),
        xmit is Mapping ==> !(reply is MapPacket),
    ensures
        xmit.advance(ring, reply) == (Seq::<Action>::empty(), ring, Step::<Xmit, i32>::Wait(xmit)),
{
}

} // verus!
