//! The rings as queues: what is handed to the adapter first comes back first.

use vstd::prelude::*;
use crate::defs::{
    DEFAULT_TXD, E1000_RDT, E1000_RXD_STAT_DD, E1000_TDT, E1000_TXD_STAT_DD, RXBUFFER_2048,
};
use crate::protocol::{
    Action, Event, Protocol, Reply, Request, Step, lemma_run_append, lemma_run_ends, lemma_run_one,
    retold, run, turn,
};
use crate::receive::{
    AllocRxBuffers, CleanRxIrq, RxBuffer, RxStatus, before, clean_rx_irq, fill, posted,
};
use crate::resource::reg_write;
use crate::ring::{Buffer, OnRing, Ring, Skb, after, unused};
use crate::transmit::{
    CleanTxIrq, Packet, Xmit, clean_tx_irq, law_packet_desc, packet_desc, sent,
};

verus! {

/// How many descriptors of `ring` are with the adapter.
pub open spec fn used(ring: Ring) -> int {
    (ring.next_to_use - ring.next_to_clean) % DEFAULT_TXD as int
}

/// What is kept for the `k`th descriptor from the one to be taken back next.
pub open spec fn nth(ring: Ring, k: int) -> Buffer {
    ring.slot((ring.next_to_clean + k) % DEFAULT_TXD as int)
}

/// Just the descriptors that are with the adapter have buffers.
pub open spec fn consistent(ring: Ring) -> bool {
    &&& ring.wf()
    &&& forall|k: int|
        0 <= k < DEFAULT_TXD ==> ((#[trigger] nth(ring, k)).skb is Some <==> k < used(ring))
}

/// The buffers that are with the adapter, oldest first.
pub open spec fn in_flight(ring: Ring) -> Seq<Skb> {
    Seq::new(used(ring) as nat, |k: int| nth(ring, k).skb->Some_0)
}

/// Of all descriptors but one, those that are not with the adapter can be handed out.
pub proof fn law_unused(ring: Ring)
    requires
        ring.wf(),
    ensures
        unused(ring) + used(ring) == DEFAULT_TXD - 1,
        unused(ring) >= 0,
        used(ring) >= 0,
{
}

/// A ring without buffers whose positions agree is an empty queue.
pub proof fn law_empty(ring: Ring)
    requires
        ring.wf(),
        ring.next_to_use == ring.next_to_clean,
        forall|i: int| 0 <= i < DEFAULT_TXD ==> (#[trigger] ring.slot(i)).skb is None,
    ensures
        consistent(ring),
        in_flight(ring) == Seq::<Skb>::empty(),
{
    assert(in_flight(ring) =~= Seq::<Skb>::empty());
}

/// A packet sent goes to the end of the queue, as long as a descriptor is left for it.
pub proof fn law_sent(ring: Ring, skb: Skb, dma: u64, size: u32)
    requires
        consistent(ring),
        unused(ring) > 0,
    ensures
        consistent(sent(ring, skb, dma, size)),
        in_flight(sent(ring, skb, dma, size)) == in_flight(ring).push(skb),
        nth(sent(ring, skb, dma, size), used(ring)) == (Buffer {
            skb: Some(skb),
            dma,
            length: size as usize,
        }),
        forall|k: int|
            0 <= k < used(ring) ==> #[trigger] nth(sent(ring, skb, dma, size), k) == nth(ring, k),
        sent(ring, skb, dma, size).next_to_use == (ring.next_to_use + 1) % 128,
        sent(ring, skb, dma, size).next_to_clean == ring.next_to_clean,
        sent(ring, skb, dma, size).dma_addr == ring.dma_addr,
{
    lemma_handed_out(ring, Buffer { skb: Some(skb), dma, length: size as usize });
}

/// Sending a packet that is in one piece maps it, accounts for it, fills in the next descriptor and
/// tells the adapter of it; the packet is then the last of those with the adapter.
pub proof fn law_xmit(ring: Ring, packet: Packet, dma: u64)
    requires
        consistent(ring),
        unused(ring) > 0,
        packet.gso_size == 0,
        packet.nr_frags == 0,
        packet.data_len <= packet.len,
        dma != u64::MAX,
    ensures
        ({
            let skb = Skb { handle: packet.handle, len: packet.len };
            let size = (packet.len - packet.data_len) as u32;
            let next = sent(ring, skb, dma, size);
            &&& run(
                OnRing { procedure: Xmit::Inspect, ring },
                seq![Reply::Packet(packet), Reply::MapPacket(dma)],
            ) == (
                seq![
                    Event::Heard(Request::Packet, Reply::Packet(packet)),
                    Event::Heard(
                        Request::MapPacket { length: size as usize },
                        Reply::MapPacket(dma),
                    ),
                    Event::Did(Action::SentQueue { bytes: packet.len }),
                    Event::Did(
                        Action::WriteTxDesc {
                            slot: ring.next_to_use as usize,
                            desc: packet_desc(dma, size),
                        },
                    ),
                    Event::Did(reg_write(E1000_TDT, next.next_to_use as u32)),
                ],
                Step::<OnRing<Xmit>, (i32, Ring)>::Done((0, next)),
            )
            &&& consistent(next)
            &&& in_flight(next) == in_flight(ring).push(skb)
        }),
        ({
            let (record, step) = run(
                OnRing { procedure: Xmit::Inspect, ring },
                seq![Reply::Packet(packet), Reply::MapPacket(dma)],
            );
            &&& record[3] matches Event::Did(Action::WriteTxDesc { slot, desc })
            &&& slot == ring.next_to_use
            &&& desc.buffer_addr == dma
            &&& desc.lower & 0x0B00_0000 == 0x0B00_0000
            &&& packet.len - packet.data_len < 0x100_0000 ==> desc.lower == packet.len
                - packet.data_len + 0x0B00_0000
            &&& desc.upper == 0
            &&& record[4] matches Event::Did(Action::Write { offset, value })
            &&& offset == 0x3818
            &&& value == (ring.next_to_use + 1) % 128
            &&& step matches Step::Done((code, next))
            &&& code == 0
            &&& nth(next, used(ring)).skb == Some(
                Skb { handle: packet.handle, len: packet.len },
            )
            &&& nth(next, used(ring)).dma == dma
            &&& nth(next, used(ring)).length == packet.len - packet.data_len
        }),
{
    let skb = Skb { handle: packet.handle, len: packet.len };
    let size = (packet.len - packet.data_len) as u32;
    law_sent(ring, skb, dma, size);
    law_packet_desc(dma, size);
    let (a, b) = (Reply::Packet(packet), Reply::MapPacket(dma));
    let start = OnRing { procedure: Xmit::Inspect, ring };
    let middle = OnRing { procedure: Xmit::Mapping { skb, size }, ring };
    lemma_run_one(start, a);
    lemma_run_one(middle, b);
    lemma_run_append(start, seq![a], seq![b]);
    assert(seq![a] + seq![b] =~= seq![a, b]);
    let i = ring.next_to_use as int;
    assert(turn(start, a) + turn(middle, b) =~= seq![
        Event::Heard(Request::Packet, a),
        Event::Heard(Request::MapPacket { length: size as usize }, b),
        Event::Did(Action::SentQueue { bytes: packet.len }),
        Event::Did(Action::WriteTxDesc { slot: i as usize, desc: packet_desc(dma, size) }),
        Event::Did(reg_write(E1000_TDT, after(i) as u32)),
    ]);
}

/// `ring` with `buffer` handed to the adapter at its next descriptor.
pub open spec fn handed_out(ring: Ring, buffer: Buffer) -> Ring {
    let i = ring.next_to_use as int;
    Ring { next_to_use: after(i) as u16, ..ring.with_slot(i, buffer) }
}

proof fn lemma_handed_out(ring: Ring, buffer: Buffer)
    requires
        consistent(ring),
        unused(ring) > 0,
        buffer.skb is Some,
    ensures
        consistent(handed_out(ring, buffer)),
        in_flight(handed_out(ring, buffer)) == in_flight(ring).push(buffer.skb->Some_0),
        used(handed_out(ring, buffer)) == used(ring) + 1,
        unused(handed_out(ring, buffer)) == unused(ring) - 1,
        handed_out(ring, buffer).next_to_use == after(ring.next_to_use as int),
        ring.slot(ring.next_to_use as int).skb is None,
        nth(handed_out(ring, buffer), used(ring)) == buffer,
        forall|k: int|
            0 <= k < used(ring) ==> #[trigger] nth(handed_out(ring, buffer), k) == nth(ring, k),
{
    let next = handed_out(ring, buffer);
    let m = DEFAULT_TXD as int;
    let i = ring.next_to_use as int;
    let u = used(ring);
    lemma_one_more(i, ring.next_to_clean as int);
    assert(nth(ring, u) == ring.slot(i));
    assert forall|k: int| 0 <= k < m implies #[trigger] nth(next, k) == if k == u {
        buffer
    } else {
        nth(ring, k)
    } by {
        let j = (ring.next_to_clean + k) % m;
        assert(0 <= j < m);
        lemma_same_place(ring.next_to_clean as int, k, u);
    }
    assert forall|k: int| 0 <= k < m implies ((#[trigger] nth(next, k)).skb is Some <==> k < u + 1)
        by {
        assert(nth(ring, k).skb is Some <==> k < u);
    }
    assert(in_flight(next) =~= in_flight(ring).push(buffer.skb->Some_0));
}

/// Handing one descriptor out makes one more used and one fewer unused.
proof fn lemma_one_more(next_to_use: int, next_to_clean: int)
    requires
        0 <= next_to_use < DEFAULT_TXD,
        0 <= next_to_clean < DEFAULT_TXD,
        (next_to_clean - next_to_use - 1) % DEFAULT_TXD as int > 0,
    ensures
        ({
            let m = DEFAULT_TXD as int;
            let u = (next_to_use - next_to_clean) % m;
            &&& 0 <= u < m - 1
            &&& (next_to_clean + u) % m == next_to_use
            &&& 0 <= after(next_to_use) < m
            &&& (after(next_to_use) - next_to_clean) % m == u + 1
            &&& (next_to_clean - after(next_to_use) - 1) % m == (next_to_clean - next_to_use - 1)
                % m - 1
        }),
{
}

/// A step of one and then of `n - 1` is a step of `n`.
proof fn lemma_steps(from: int, n: int)
    requires
        0 <= from < DEFAULT_TXD,
    ensures
        (after(from) + (n - 1)) % DEFAULT_TXD as int == (from + n) % DEFAULT_TXD as int,
        0 <= after(from) < DEFAULT_TXD,
        before(after(from)) == from,
        after((from + n) % DEFAULT_TXD as int) == (from + n + 1) % DEFAULT_TXD as int,
        0 < n < DEFAULT_TXD ==> (from + n) % DEFAULT_TXD as int != from,
{
}

/// Two distances within the ring that lead to the same place are the same.
proof fn lemma_same_place(from: int, a: int, b: int)
    requires
        0 <= from < DEFAULT_TXD,
        0 <= a < DEFAULT_TXD,
        0 <= b < DEFAULT_TXD,
    ensures
        (from + a) % DEFAULT_TXD as int == (from + b) % DEFAULT_TXD as int <==> a == b,
{
}

/// `ring` with its oldest descriptor taken back.
pub open spec fn taken_back(ring: Ring) -> Ring {
    let i = ring.next_to_clean as int;
    Ring { next_to_clean: after(i) as u16, ..ring.emptied(i) }
}

/// Taking a descriptor back takes its buffer from the front of the queue.
pub proof fn law_taken_back(ring: Ring)
    requires
        consistent(ring),
        used(ring) > 0,
    ensures
        consistent(taken_back(ring)),
        in_flight(taken_back(ring)) == in_flight(ring).drop_first(),
        used(taken_back(ring)) == used(ring) - 1,
        nth(ring, 0).skb == Some(in_flight(ring)[0]),
        unused(taken_back(ring)) == unused(ring) + 1,
{
    let next = taken_back(ring);
    let m = DEFAULT_TXD as int;
    let i = ring.next_to_clean as int;
    assert(used(next) == used(ring) - 1);
    assert(nth(ring, 0) == ring.slot(i));
    assert forall|k: int| 0 <= k < m - 1 implies #[trigger] nth(next, k) == nth(ring, k + 1) by {
        let j = (ring.next_to_clean + k + 1) % m;
        assert(0 <= j < m);
        assert(j != i);
        assert((next.next_to_clean + k) % m == j);
    }
    assert(nth(next, m - 1).skb is None) by {
        assert((next.next_to_clean + (m - 1)) % m == i);
    }
    assert(in_flight(next) =~= in_flight(ring).drop_first());
}

/// `ring` with its `n` oldest descriptors taken back.
pub open spec fn cleaned(ring: Ring, n: nat) -> Ring
    decreases n,
{
    if n == 0 {
        ring
    } else {
        cleaned(taken_back(ring), (n - 1) as nat)
    }
}

/// Taking several descriptors back leaves the rest of the queue, in order.
pub proof fn law_cleaned(ring: Ring, n: nat)
    requires
        consistent(ring),
        n <= used(ring),
    ensures
        consistent(cleaned(ring, n)),
        in_flight(cleaned(ring, n)) == in_flight(ring).skip(n as int),
        used(cleaned(ring, n)) == used(ring) - n,
        unused(cleaned(ring, n)) == unused(ring) + n,
    decreases n,
{
    if n == 0 {
        assert(in_flight(ring).skip(0) =~= in_flight(ring));
    } else {
        law_taken_back(ring);
        law_cleaned(taken_back(ring), (n - 1) as nat);
        assert(in_flight(ring).drop_first().skip(n - 1) =~= in_flight(ring).skip(n as int));
    }
}

/// The bytes of the first `n` of `skbs`.
pub open spec fn bytes_of(skbs: Seq<Skb>, n: nat) -> nat
    decreases n,
{
    if n == 0 {
        0
    } else {
        skbs[0].len as nat + bytes_of(skbs.drop_first(), (n - 1) as nat)
    }
}

/// Descriptors are done up to the last one asked for, which is not.
pub open spec fn tx_statuses(statuses: Seq<u32>) -> bool {
    &&& statuses.len() > 0
    &&& forall|k: int|
        0 <= k < statuses.len() ==> ((#[trigger] statuses[k]) & E1000_TXD_STAT_DD == 0 <==> k
            == statuses.len() - 1)
}

/// The record of taking sent packets back from `ring` on the reports `statuses`, with
/// `pkts_compl` packets of `bytes_compl` bytes taken back before: each packet is unmapped, its
/// descriptor cleared and the packet given back, oldest first; then the counts are passed on.
pub open spec fn tx_record(
    ring: Ring,
    statuses: Seq<u32>,
    pkts_compl: int,
    bytes_compl: int,
) -> Seq<Event<usize, u32>>
    decreases statuses.len(),
{
    let i = ring.next_to_clean as usize;
    let info = nth(ring, 0);
    let skb = info.skb->Some_0;
    if statuses.len() <= 1 {
        seq![
            Event::Heard(i, statuses[0]),
            Event::Did(Action::TxStats { bytes: bytes_compl as u64, packets: pkts_compl as u64 }),
            Event::Did(
                Action::CompletedQueue { packets: pkts_compl as u32, bytes: bytes_compl as u32 },
            ),
        ]
    } else {
        seq![
            Event::Heard(i, statuses[0]),
            Event::Did(Action::UnmapTx { dma: info.dma, length: info.length }),
            Event::Did(Action::ClearTxDesc { slot: i }),
            Event::Did(Action::ConsumeSkb { skb: skb.handle, budget: 64 }),
        ] + tx_record(
            taken_back(ring),
            statuses.drop_first(),
            pkts_compl + 1,
            bytes_compl + skb.len,
        )
    }
}

/// The taking back from the middle on. `ring` has its position moved along.
proof fn lemma_clean_tx(
    ring: Ring,
    start: u16,
    statuses: Seq<u32>,
    pkts_compl: u32,
    bytes_compl: u32,
)
    requires
        consistent(ring),
        tx_statuses(statuses),
        statuses.len() - 1 <= used(ring),
        pkts_compl + statuses.len() - 1 <= u32::MAX,
        bytes_compl + bytes_of(in_flight(ring), (statuses.len() - 1) as nat) <= u32::MAX,
    ensures
        ({
            let n = (statuses.len() - 1) as nat;
            let procedure = CleanTxIrq {
                i: ring.next_to_clean as usize,
                pkts_compl,
                bytes_compl,
            };
            let p = OnRing { procedure, ring: Ring { next_to_clean: start, ..ring } };
            &&& run(p, statuses) == (
                tx_record(ring, statuses, pkts_compl as int, bytes_compl as int),
                Step::<OnRing<CleanTxIrq>, Ring>::Done(cleaned(ring, n)),
            )
            &&& run(p, statuses.drop_last()).1 is Wait
        }),
    decreases statuses.len(),
{
    let procedure = CleanTxIrq { i: ring.next_to_clean as usize, pkts_compl, bytes_compl };
    let moved = Ring { next_to_clean: start, ..ring };
    let p = OnRing { procedure, ring: moved };
    let i = ring.next_to_clean as int;
    assert(nth(ring, 0) == ring.slot(i));
    assert(moved.slot(i) == ring.slot(i));
    if statuses.len() == 1 {
        assert(statuses[0] & E1000_TXD_STAT_DD == 0);
        assert(turn(p, statuses[0]) =~= tx_record(
            ring,
            statuses,
            pkts_compl as int,
            bytes_compl as int,
        ));
        assert(statuses.drop_last() =~= seq![]);
    } else {
        let n = (statuses.len() - 1) as nat;
        assert(statuses[0] & E1000_TXD_STAT_DD != 0);
        law_taken_back(ring);
        let skb = in_flight(ring)[0];
        let rest = statuses.drop_first();
        let next = taken_back(ring);
        assert forall|k: int| 0 <= k < rest.len() implies ((#[trigger] rest[k]) & E1000_TXD_STAT_DD
            == 0 <==> k == rest.len() - 1) by {
            assert(rest[k] == statuses[k + 1]);
        }
        assert(bytes_of(in_flight(ring), n) == skb.len + bytes_of(
            in_flight(next),
            (n - 1) as nat,
        ));
        lemma_clean_tx(
            next,
            start,
            rest,
            (pkts_compl + 1) as u32,
            (bytes_compl + skb.len) as u32,
        );
        assert(moved.emptied(i) == Ring { next_to_clean: start, ..next });
        assert(turn(p, statuses[0]) =~= seq![
            Event::Heard(ring.next_to_clean as usize, statuses[0]),
            Event::Did(Action::UnmapTx { dma: ring.slot(i).dma, length: ring.slot(i).length }),
            Event::Did(Action::ClearTxDesc { slot: ring.next_to_clean as usize }),
            Event::Did(Action::ConsumeSkb { skb: skb.handle, budget: 64 }),
        ]);
        assert(statuses.drop_last().drop_first() =~= rest.drop_last());
    }
}

/// Taking sent packets back gives the kernel the oldest packets, as many as the adapter is done
/// with, each once and in the order in which they were sent, and counts them and their bytes.
pub proof fn law_clean_tx_irq(ring: Ring, statuses: Seq<u32>)
    requires
        consistent(ring),
        tx_statuses(statuses),
        statuses.len() - 1 <= used(ring),
        bytes_of(in_flight(ring), (statuses.len() - 1) as nat) <= u32::MAX,
    ensures
        run(OnRing { procedure: clean_tx_irq(ring), ring }, statuses) == (
            tx_record(ring, statuses, 0, 0),
            Step::<OnRing<CleanTxIrq>, Ring>::Done(cleaned(ring, (statuses.len() - 1) as nat)),
        ),
        run(OnRing { procedure: clean_tx_irq(ring), ring }, statuses.drop_last()).1 is Wait,
{
    lemma_clean_tx(ring, ring.next_to_clean, statuses, 0, 0);
}

/// `ring` with the receive buffer `buffer` posted.
pub open spec fn filled_one(ring: Ring, buffer: RxBuffer) -> Ring {
    let info = ring.slot(ring.next_to_use as int);
    handed_out(ring, Buffer { skb: Some(buffer.skb), dma: buffer.dma, ..info })
}

/// `ring` with the receive buffers `buffers` posted, in order.
pub open spec fn filled(ring: Ring, buffers: Seq<RxBuffer>) -> Ring
    decreases buffers.len(),
{
    if buffers.len() == 0 {
        ring
    } else {
        filled(filled_one(ring, buffers[0]), buffers.drop_first())
    }
}

/// The packet buffers of `buffers`.
pub open spec fn skbs_of(buffers: Seq<RxBuffer>) -> Seq<Skb> {
    Seq::new(buffers.len(), |k: int| buffers[k].skb)
}

/// Buffers posted go to the end of the queue, as long as descriptors are left for them.
pub proof fn law_filled(ring: Ring, buffers: Seq<RxBuffer>)
    requires
        consistent(ring),
        buffers.len() <= unused(ring),
    ensures
        consistent(filled(ring, buffers)),
        in_flight(filled(ring, buffers)) == in_flight(ring) + skbs_of(buffers),
        used(filled(ring, buffers)) == used(ring) + buffers.len(),
        filled(ring, buffers).next_to_use == (ring.next_to_use + buffers.len())
            % DEFAULT_TXD as int,
        filled(ring, buffers).next_to_clean == ring.next_to_clean,
    decreases buffers.len(),
{
    if buffers.len() == 0 {
        assert(in_flight(ring) + skbs_of(buffers) =~= in_flight(ring));
    } else {
        let info = ring.slot(ring.next_to_use as int);
        let buffer = Buffer { skb: Some(buffers[0].skb), dma: buffers[0].dma, ..info };
        lemma_handed_out(ring, buffer);
        let next = handed_out(ring, buffer);
        law_filled(next, buffers.drop_first());
        lemma_steps(ring.next_to_use as int, buffers.len() as int);
        assert(in_flight(ring).push(buffers[0].skb) + skbs_of(buffers.drop_first()) =~= in_flight(
            ring,
        ) + skbs_of(buffers));
    }
}

/// All buffers were mapped for the adapter.
pub open spec fn mapped(buffers: Seq<RxBuffer>) -> bool {
    forall|k: int| 0 <= k < buffers.len() ==> (#[trigger] buffers[k]).dma != u64::MAX
}

/// The record of posting `buffers`: each descriptor is pointed at its buffer, and then the adapter
/// is told of the last one.
pub open spec fn post_record(ring: Ring, buffers: Seq<RxBuffer>) -> Seq<Event<u32, RxBuffer>>
    decreases buffers.len(),
{
    let i = ring.next_to_use as usize;
    let heard = seq![
        Event::Heard(RXBUFFER_2048, buffers[0]),
        Event::Did(Action::PostRxDesc { slot: i, addr: buffers[0].dma }),
    ];
    if buffers.len() <= 1 {
        heard.push(Event::Did(reg_write(E1000_RDT, i as u32)))
    } else {
        heard + post_record(filled_one(ring, buffers[0]), buffers.drop_first())
    }
}

/// The record of posting `buffers`, if any, within a larger procedure.
pub open spec fn buffers_record(rx_ring: Ring, buffers: Seq<RxBuffer>) -> Seq<
    Event<Request, Reply>,
> {
    if buffers.len() == 0 {
        seq![]
    } else {
        retold(
            post_record(rx_ring, buffers),
            |length: u32| Request::RxBuffer { length },
            |buffer: RxBuffer| Reply::RxBuffer(buffer),
        )
    }
}

/// One buffer is posted, with `left` to go. `ring` has its position moved along.
proof fn lemma_post(ring: Ring, start: u16, buffer: RxBuffer, left: u16)
    requires
        ring.wf(),
        1 <= left,
        buffer.dma != u64::MAX,
        left == 1 ==> after(ring.next_to_use as int) != start,
        left > 1 ==> filled_one(ring, buffer).slot(after(ring.next_to_use as int)).skb is None,
    ensures
        ({
            let i = ring.next_to_use as usize;
            let procedure = AllocRxBuffers { i, left };
            let p = OnRing { procedure, ring: Ring { next_to_use: start, ..ring } };
            let post = Action::PostRxDesc { slot: i, addr: buffer.dma };
            let next = filled_one(ring, buffer);
            &&& left == 1 ==> p.next(buffer) == (
                seq![post, reg_write(E1000_RDT, i as u32)],
                Step::<OnRing<AllocRxBuffers>, Ring>::Done(next),
            )
            &&& left > 1 ==> p.next(buffer) == (
                seq![post],
                Step::<OnRing<AllocRxBuffers>, Ring>::Wait(
                    OnRing {
                        procedure: AllocRxBuffers {
                            i: next.next_to_use as usize,
                            left: (left - 1) as u16,
                        },
                        ring: Ring { next_to_use: start, ..next },
                    },
                ),
            )
        }),
{
    let i = ring.next_to_use as int;
    let moved = Ring { next_to_use: start, ..ring };
    let next = filled_one(ring, buffer);
    lemma_steps(i, 1);
    let full = posted(moved, i, buffer);
    assert(full == Ring { next_to_use: start, ..next });
    assert(full.slot(after(i)) == next.slot(after(i)));
    let post = seq![Action::PostRxDesc { slot: i as usize, addr: buffer.dma }];
    if left == 1 {
        assert(Ring { next_to_use: after(i) as u16, ..full } == next);
        assert(post + seq![reg_write(E1000_RDT, i as u32)] =~= seq![
            Action::PostRxDesc { slot: i as usize, addr: buffer.dma },
            reg_write(E1000_RDT, i as u32),
        ]);
    } else {
        assert(post + seq![] =~= post);
    }
}

/// The descriptor after one filled is free, as long as descriptors are left.
proof fn lemma_next_free(ring: Ring, buffer: RxBuffer)
    requires
        consistent(ring),
        unused(ring) > 0,
    ensures
        consistent(filled_one(ring, buffer)),
        unused(filled_one(ring, buffer)) == unused(ring) - 1,
        unused(ring) > 1 ==> filled_one(ring, buffer).slot(
            after(ring.next_to_use as int),
        ).skb is None,
{
    let info = ring.slot(ring.next_to_use as int);
    lemma_handed_out(ring, Buffer { skb: Some(buffer.skb), dma: buffer.dma, ..info });
    let next = filled_one(ring, buffer);
    law_unused(next);
    assert(nth(next, used(next)) == next.slot(next.next_to_use as int));
}

/// The posting from the middle on, `k` buffers after its start. `ring` has its position moved
/// along.
proof fn lemma_alloc_rx(ring: Ring, start: u16, k: int, buffers: Seq<RxBuffer>)
    requires
        consistent(ring),
        1 <= buffers.len() <= unused(ring),
        mapped(buffers),
        0 <= k,
        k + buffers.len() < DEFAULT_TXD,
        start < DEFAULT_TXD,
        ring.next_to_use == (start + k) % DEFAULT_TXD as int,
    ensures
        ({
            let procedure = AllocRxBuffers {
                i: ring.next_to_use as usize,
                left: buffers.len() as u16,
            };
            let p = OnRing { procedure, ring: Ring { next_to_use: start, ..ring } };
            &&& run(p, buffers) == (
                post_record(ring, buffers),
                Step::<OnRing<AllocRxBuffers>, Ring>::Done(filled(ring, buffers)),
            )
            &&& run(p, buffers.drop_last()).1 is Wait
        }),
    decreases buffers.len(),
{
    let i = ring.next_to_use as int;
    let left = buffers.len() as u16;
    let p = OnRing {
        procedure: AllocRxBuffers { i: i as usize, left },
        ring: Ring { next_to_use: start, ..ring },
    };
    let rest = buffers.drop_first();
    let next = filled_one(ring, buffers[0]);
    lemma_next_free(ring, buffers[0]);
    lemma_steps(start as int, k);
    lemma_steps(start as int, k + 1);
    lemma_post(ring, start, buffers[0], left);
    if buffers.len() == 1 {
        assert(filled(next, rest) == next);
        assert(turn(p, buffers[0]) =~= post_record(ring, buffers));
        assert(buffers.drop_last() =~= seq![]);
    } else {
        assert forall|j: int| 0 <= j < rest.len() implies (#[trigger] rest[j]).dma != u64::MAX by {
            assert(rest[j] == buffers[j + 1]);
        }
        lemma_alloc_rx(next, start, k + 1, rest);
        assert(turn(p, buffers[0]) =~= seq![
            Event::Heard(RXBUFFER_2048, buffers[0]),
            Event::Did(Action::PostRxDesc { slot: i as usize, addr: buffers[0].dma }),
        ]);
        assert(buffers.drop_last().drop_first() =~= rest.drop_last());
    }
}

/// Posting receive buffers to a ring with descriptors left for them posts each of them, and tells
/// the adapter of the last.
pub proof fn law_alloc_rx_buffers(ring: Ring, buffers: Seq<RxBuffer>)
    requires
        consistent(ring),
        1 <= buffers.len() <= unused(ring),
        mapped(buffers),
    ensures
        ({
            let procedure = AllocRxBuffers {
                i: ring.next_to_use as usize,
                left: buffers.len() as u16,
            };
            &&& fill(ring, ring.next_to_use as int, buffers.len() as u16) == (
                Seq::<Action>::empty(),
                ring,
                Step::<AllocRxBuffers, ()>::Wait(procedure),
            )
            &&& run(OnRing { procedure, ring }, buffers) == (
                post_record(ring, buffers),
                Step::<OnRing<AllocRxBuffers>, Ring>::Done(filled(ring, buffers)),
            )
            &&& run(OnRing { procedure, ring }, buffers.drop_last()).1 is Wait
        }),
{
    law_unused(ring);
    assert(nth(ring, used(ring)) == ring.slot(ring.next_to_use as int));
    lemma_alloc_rx(ring, ring.next_to_use, 0, buffers);
}

/// Descriptors are done up to the last one asked for, which is not, and each frame is at least as
/// long as its checksum.
pub open spec fn rx_statuses(statuses: Seq<RxStatus>) -> bool {
    &&& statuses.len() > 0
    &&& forall|k: int|
        0 <= k < statuses.len() ==> {
            &&& (#[trigger] statuses[k]).status & (E1000_RXD_STAT_DD as u8) == 0 <==> k
                == statuses.len() - 1
            &&& k < statuses.len() - 1 ==> statuses[k].length >= 4
        }
}

/// The bytes of the first `n` frames reported, without their checksums.
pub open spec fn frame_bytes(statuses: Seq<RxStatus>, n: nat) -> int
    decreases n,
{
    if n == 0 {
        0
    } else {
        statuses[0].length - 4 + frame_bytes(statuses.drop_first(), (n - 1) as nat)
    }
}

/// The record of handing received frames on from `ring` on the reports `statuses`, with
/// `pkts_compl` frames of `bytes_compl` bytes handed on before: each buffer is unmapped, the frame
/// handed on without its checksum, and the descriptor cleared, oldest first; then the counts are
/// passed on.
pub open spec fn rx_record(
    ring: Ring,
    statuses: Seq<RxStatus>,
    pkts_compl: int,
    bytes_compl: int,
) -> Seq<Event<usize, RxStatus>>
    decreases statuses.len(),
{
    let i = ring.next_to_clean as usize;
    let info = nth(ring, 0);
    let skb = info.skb->Some_0;
    let length = statuses[0].length - 4;
    if statuses.len() <= 1 {
        seq![
            Event::Heard(i, statuses[0]),
            Event::Did(Action::RxStats { bytes: bytes_compl as u64, packets: pkts_compl as u64 }),
        ]
    } else {
        seq![
            Event::Heard(i, statuses[0]),
            Event::Did(Action::UnmapRx { dma: info.dma, length: RXBUFFER_2048 as usize }),
            Event::Did(Action::ReceiveSkb { skb: skb.handle, length: length as u32 }),
            Event::Did(Action::ClearRxDesc { slot: i }),
        ] + rx_record(
            taken_back(ring),
            statuses.drop_first(),
            pkts_compl + 1,
            bytes_compl + length,
        )
    }
}

/// The handing on from the middle on. `ring` has its position moved along.
proof fn lemma_clean_rx(
    ring: Ring,
    start: u16,
    statuses: Seq<RxStatus>,
    pkts_compl: usize,
    bytes_compl: u16,
)
    requires
        consistent(ring),
        rx_statuses(statuses),
        statuses.len() - 1 <= used(ring),
        pkts_compl + statuses.len() - 1 <= u32::MAX,
        bytes_compl + frame_bytes(statuses, (statuses.len() - 1) as nat) <= u16::MAX,
    ensures
        ({
            let n = (statuses.len() - 1) as nat;
            let procedure = CleanRxIrq {
                i: ring.next_to_clean as usize,
                pkts_compl,
                bytes_compl,
            };
            let p = OnRing { procedure, ring: Ring { next_to_clean: start, ..ring } };
            &&& run(p, statuses) == (
                rx_record(ring, statuses, pkts_compl as int, bytes_compl as int),
                Step::<OnRing<CleanRxIrq>, (usize, Ring)>::Done(
                    ((pkts_compl + n) as usize, cleaned(ring, n)),
                ),
            )
            &&& run(p, statuses.drop_last()).1 is Wait
        }),
        frame_bytes(statuses, (statuses.len() - 1) as nat) >= 0,
    decreases statuses.len(),
{
    let procedure = CleanRxIrq { i: ring.next_to_clean as usize, pkts_compl, bytes_compl };
    let moved = Ring { next_to_clean: start, ..ring };
    let p = OnRing { procedure, ring: moved };
    let i = ring.next_to_clean as int;
    assert(nth(ring, 0) == ring.slot(i));
    assert(moved.slot(i) == ring.slot(i));
    if statuses.len() == 1 {
        assert(statuses[0].status & (E1000_RXD_STAT_DD as u8) == 0);
        assert(turn(p, statuses[0]) =~= rx_record(
            ring,
            statuses,
            pkts_compl as int,
            bytes_compl as int,
        ));
        assert(statuses.drop_last() =~= seq![]);
    } else {
        let n = (statuses.len() - 1) as nat;
        assert(statuses[0].status & (E1000_RXD_STAT_DD as u8) != 0);
        law_taken_back(ring);
        let skb = in_flight(ring)[0];
        let length = statuses[0].length - 4;
        let rest = statuses.drop_first();
        let next = taken_back(ring);
        assert forall|k: int| 0 <= k < rest.len() implies {
            &&& (#[trigger] rest[k]).status & (E1000_RXD_STAT_DD as u8) == 0 <==> k == rest.len()
                - 1
            &&& k < rest.len() - 1 ==> rest[k].length >= 4
        } by {
            assert(rest[k] == statuses[k + 1]);
        }
        lemma_frame_bytes(rest, (n - 1) as nat);
        lemma_clean_rx(
            next,
            start,
            rest,
            (pkts_compl + 1) as usize,
            (bytes_compl + length) as u16,
        );
        assert(moved.emptied(i) == Ring { next_to_clean: start, ..next });
        assert(turn(p, statuses[0]) =~= seq![
            Event::Heard(ring.next_to_clean as usize, statuses[0]),
            Event::Did(
                Action::UnmapRx { dma: ring.slot(i).dma, length: RXBUFFER_2048 as usize },
            ),
            Event::Did(Action::ReceiveSkb { skb: skb.handle, length: length as u32 }),
            Event::Did(Action::ClearRxDesc { slot: ring.next_to_clean as usize }),
        ]);
        assert(statuses.drop_last().drop_first() =~= rest.drop_last());
    }
}

proof fn lemma_frame_bytes(statuses: Seq<RxStatus>, n: nat)
    requires
        n <= statuses.len(),
        forall|k: int| 0 <= k < n ==> (#[trigger] statuses[k]).length >= 4,
    ensures
        frame_bytes(statuses, n) >= 0,
    decreases n,
{
    if n > 0 {
        assert(statuses[0].length >= 4);
        assert forall|k: int| 0 <= k < n - 1 implies (#[trigger] statuses.drop_first()[k]).length
            >= 4 by {
            assert(statuses[k + 1].length >= 4);
        }
        lemma_frame_bytes(statuses.drop_first(), (n - 1) as nat);
    }
}

/// Handing received frames on gives the kernel the oldest buffers, as many as the adapter has
/// filled, each once, in order and without its checksum, and counts them and their bytes.
pub proof fn law_clean_rx_irq(ring: Ring, statuses: Seq<RxStatus>)
    requires
        consistent(ring),
        rx_statuses(statuses),
        statuses.len() - 1 <= used(ring),
        frame_bytes(statuses, (statuses.len() - 1) as nat) <= u16::MAX,
    ensures
        run(OnRing { procedure: clean_rx_irq(ring), ring }, statuses) == (
            rx_record(ring, statuses, 0, 0),
            Step::<OnRing<CleanRxIrq>, (usize, Ring)>::Done(
                ((statuses.len() - 1) as usize, cleaned(ring, (statuses.len() - 1) as nat)),
            ),
        ),
        run(OnRing { procedure: clean_rx_irq(ring), ring }, statuses.drop_last()).1 is Wait,
{
    lemma_clean_rx(ring, ring.next_to_clean, statuses, 0, 0);
}

/// How many of the first `n` descriptors have a buffer.
pub open spec fn held(ring: Ring, n: nat) -> nat
    decreases n,
{
    if n == 0 {
        0
    } else {
        held(ring, (n - 1) as nat) + if ring.slot(n - 1).skb is Some {
            1nat
        } else {
            0nat
        }
    }
}

/// Emptying a descriptor with a buffer leaves one buffer fewer.
proof fn lemma_held(ring: Ring, i: int, n: nat)
    requires
        0 <= i < DEFAULT_TXD,
        n <= DEFAULT_TXD,
        ring.slot(i).skb is Some,
    ensures
        held(ring.emptied(i), n) == held(ring, n) - if i < n {
            1int
        } else {
            0int
        },
    decreases n,
{
    if n > 0 {
        lemma_held(ring, i, (n - 1) as nat);
    }
}

proof fn lemma_held_bound(ring: Ring, n: nat)
    ensures
        held(ring, n) <= n,
    decreases n,
{
    if n > 0 {
        lemma_held_bound(ring, (n - 1) as nat);
    }
}

/// The buffers that a walk over `ring` from descriptor `i` on can still meet.
spec fn to_meet(i: usize, ring: Ring) -> nat {
    if i < DEFAULT_TXD {
        held(ring, DEFAULT_TXD as nat)
    } else {
        (DEFAULT_TXD + 1) as nat
    }
}

proof fn lemma_meets_fewer(i: usize, ring: Ring)
    requires
        ring.slot(i as int).skb is Some,
    ensures
        to_meet(after(i as int) as usize, ring.emptied(i as int)) < to_meet(i, ring),
{
    lemma_held_bound(ring.emptied(i as int), DEFAULT_TXD as nat);
    if i < DEFAULT_TXD {
        lemma_held(ring, i as int, DEFAULT_TXD as nat);
    }
}

/// No device can keep the taking back of packets from ending: it takes at most as many back as the
/// ring has buffers.
pub proof fn law_clean_tx_ends(clean: CleanTxIrq, ring: Ring, statuses: Seq<u32>)
    requires
        clean.wf(ring),
    ensures
        run(OnRing { procedure: clean, ring }, statuses).1 is Wait ==> statuses.len() <= held(
            ring,
            DEFAULT_TXD as nat,
        ),
{
    let rank = |x: OnRing<CleanTxIrq>| to_meet(x.procedure.i, x.ring);
    assert forall|x: OnRing<CleanTxIrq>, r: u32|
        (#[trigger] x.next(r)).1 matches Step::Wait(y) ==> rank(y) < rank(x) by {
        if x.next(r).1 is Wait {
            lemma_meets_fewer(x.procedure.i, x.ring);
        }
    }
    lemma_run_ends(OnRing { procedure: clean, ring }, rank, statuses);
}

/// No device can keep the handing on of frames from ending: it hands at most as many on as the
/// ring has buffers.
pub proof fn law_clean_rx_ends(clean: CleanRxIrq, ring: Ring, statuses: Seq<RxStatus>)
    requires
        clean.wf(ring),
    ensures
        run(OnRing { procedure: clean, ring }, statuses).1 is Wait ==> statuses.len() <= held(
            ring,
            DEFAULT_TXD as nat,
        ),
{
    let rank = |x: OnRing<CleanRxIrq>| to_meet(x.procedure.i, x.ring);
    assert forall|x: OnRing<CleanRxIrq>, r: RxStatus|
        (#[trigger] x.next(r)).1 matches Step::Wait(y) ==> rank(y) < rank(x) by {
        if x.next(r).1 is Wait {
            lemma_meets_fewer(x.procedure.i, x.ring);
        }
    }
    lemma_run_ends(OnRing { procedure: clean, ring }, rank, statuses);
}

/// A packet that is the only one with the adapter comes back as it was sent: what is unmapped is
/// what was mapped, the packet given back is the one handed over, and its bytes are counted.
pub proof fn law_sent_and_taken_back(ring: Ring, packet: Packet, dma: u64, done: u32, open: u32)
    requires
        consistent(ring),
        used(ring) == 0,
        packet.data_len <= packet.len,
        done & 1 != 0,
        open & 1 == 0,
    ensures
        ({
            let skb = Skb { handle: packet.handle, len: packet.len };
            let size = (packet.len - packet.data_len) as u32;
            let next = sent(ring, skb, dma, size);
            let (record, step) = run(
                OnRing { procedure: clean_tx_irq(next), ring: next },
                seq![done, open],
            );
            &&& record[1] == Event::<usize, u32>::Did(
                Action::UnmapTx { dma, length: (packet.len - packet.data_len) as usize },
            )
            &&& record[3] == Event::<usize, u32>::Did(
                Action::ConsumeSkb { skb: packet.handle, budget: 64 },
            )
            &&& record[5] == Event::<usize, u32>::Did(
                Action::TxStats { bytes: packet.len as u64, packets: 1 },
            )
            &&& record[6] == Event::<usize, u32>::Did(
                Action::CompletedQueue { packets: 1, bytes: packet.len },
            )
            &&& step matches Step::Done(last)
            &&& used(last) == 0
            &&& consistent(last)
        }),
{
    let skb = Skb { handle: packet.handle, len: packet.len };
    let size = (packet.len - packet.data_len) as u32;
    let next = sent(ring, skb, dma, size);
    let statuses = seq![done, open];
    law_unused(ring);
    law_sent(ring, skb, dma, size);
    law_unused(next);
    assert(in_flight(next).len() == 1);
    assert(in_flight(next)[0] == skb);
    reveal_with_fuel(bytes_of, 2);
    law_clean_tx_irq(next, statuses);
    law_cleaned(next, 1);
    reveal_with_fuel(tx_record, 3);
    assert(statuses.drop_first() =~= seq![open]);
}

} // verus!
