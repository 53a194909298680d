//! One round of polling: received frames are handed on, their descriptors get new buffers, and
//! sent packets are taken back.

use vstd::prelude::*;
use crate::defs::RXBUFFER_2048;
use crate::protocol::{
    Action, Event, Fault, Protocol, Reply, Request, Step, did, lemma_run_append, lemma_run_last,
    lemma_run_to_end, retold, run,
};
use crate::queue::{
    buffers_record, bytes_of, cleaned, consistent, filled, filled_one, frame_bytes, in_flight,
    law_alloc_rx_buffers, law_clean_rx_irq, law_clean_tx_irq, law_cleaned, law_filled, law_unused,
    mapped, nth, post_record, rx_record, rx_statuses, taken_back, tx_record, tx_statuses, used,
};
use crate::receive::{AllocRxBuffers, CleanRxIrq, RxBuffer, RxStatus, clean_rx_irq, fill};
use crate::resource::Resource;
use crate::ring::{OnRing, Ring, unused};
use crate::transmit::{CleanTxIrq, clean_tx_irq};
use crate::E1000;

verus! {

/// One round of polling.
#[derive(Clone, Copy, PartialEq, Eq, Debug)]
pub enum Clean {
    Rx(CleanRxIrq),
    Refill(AllocRxBuffers),
    Tx(CleanTxIrq),
}

/// A procedure together with both rings.
pub struct OnRings<M> {
    pub procedure: M,
    pub rx_ring: Ring,
    pub tx_ring: Ring,
}

/// The posting of buffers stands at `step`, with the ring `rx_ring` and the actions `actions`
/// queued. Once it is over, sent packets are next.
pub open spec fn after_refill(
    actions: Seq<Action>,
    rx_ring: Ring,
    step: Step<AllocRxBuffers, ()>,
    tx_ring: Ring,
) -> (Seq<Action>, Ring, Ring, Step<Clean, i32>) {
    (
        actions,
        rx_ring,
        tx_ring,
        match step {
            Step::Wait(refill) => Step::Wait(Clean::Refill(refill)),
            Step::Done(_) => Step::Wait(Clean::Tx(clean_tx_irq(tx_ring))),
            Step::Fault(fault) => Step::Fault(fault),
        },
    )
}

impl Clean {
    /// What is known of the rings at this point.
    pub open spec fn wf(self, rx_ring: Ring, tx_ring: Ring) -> bool {
        &&& rx_ring.wf()
        &&& tx_ring.wf()
        &&& match self {
            Clean::Rx(clean) => clean.wf(rx_ring),
            Clean::Refill(refill) => refill.wf(),
            Clean::Tx(clean) => clean.wf(tx_ring),
        }
    }

    /// The question that is open.
    pub open spec fn asks(self) -> Request {
        match self {
            Clean::Rx(clean) => Request::RxStatus { slot: clean.i },
            Clean::Refill(_) => Request::RxBuffer { length: RXBUFFER_2048 },
            Clean::Tx(clean) => Request::TxStatus { slot: clean.i },
        }
    }

    /// What an answer leads to: the actions queued, the rings, and where the round stands. An
    /// answer to another question leads to nothing.
    pub open spec fn advance(self, rx_ring: Ring, tx_ring: Ring, reply: Reply) -> (
        Seq<Action>,
        Ring,
        Ring,
        Step<Clean, i32>,
    ) {
        match (self, reply) {
            (Clean::Rx(clean), Reply::RxStatus(desc)) => {
                let (actions, rx_ring, step) = clean.advance(rx_ring, desc);
                match step {
                    Step::Wait(clean) => (actions, rx_ring, tx_ring, Step::Wait(Clean::Rx(clean))),
                    Step::Done(cleaned_count) => {
                        let (more, rx_ring, step) = fill(
                            rx_ring,
                            rx_ring.next_to_use as int,
                            cleaned_count as u16,
                        );
                        after_refill(actions + more, rx_ring, step, tx_ring)
                    },
                    Step::Fault(fault) => (actions, rx_ring, tx_ring, Step::Fault(fault)),
                }
            },
            (Clean::Refill(refill), Reply::RxBuffer(buffer)) => {
                let (actions, rx_ring, step) = refill.advance(rx_ring, buffer);
                after_refill(actions, rx_ring, step, tx_ring)
            },
            (Clean::Tx(clean), Reply::TxStatus(upper)) => {
                let (actions, tx_ring, step) = clean.advance(tx_ring, upper);
                match step {
                    Step::Wait(clean) => (actions, rx_ring, tx_ring, Step::Wait(Clean::Tx(clean))),
                    Step::Done(_) => (
                        actions.push(Action::NapiComplete { work: 1 }),
                        rx_ring,
                        tx_ring,
                        Step::Done(1),
                    ),
                    Step::Fault(fault) => (actions, rx_ring, tx_ring, Step::Fault(fault)),
                }
            },
            _ => (seq![], rx_ring, tx_ring, Step::Wait(self)),
        }
    }
}

impl Protocol for OnRings<Clean> {
    type Request = Request;

    type Reply = Reply;

    type Result = (i32, Ring, Ring);

    open spec fn asks(self) -> Request {
        self.procedure.asks()
    }

    open spec fn next(self, reply: Reply) -> (
        Seq<Action>,
        Step<OnRings<Clean>, (i32, Ring, Ring)>,
    ) {
        let (actions, rx_ring, tx_ring, step) = self.procedure.advance(
            self.rx_ring,
            self.tx_ring,
            reply,
        );
        (
            actions,
            match step {
                Step::Wait(procedure) => Step::Wait(OnRings { procedure, rx_ring, tx_ring }),
                Step::Done(work) => Step::Done((work, rx_ring, tx_ring)),
                Step::Fault(fault) => Step::Fault(fault),
            },
        )
    }
}

impl E1000 {
    /// Begins a round of polling.
    pub fn clean(rx_ring: &Ring) -> (clean: Clean)
        requires
            rx_ring.wf(),
        ensures
            clean == Clean::Rx(clean_rx_irq(*rx_ring)),
            forall|tx_ring: Ring| tx_ring.wf() ==> clean.wf(*rx_ring, tx_ring),
    {
        Clean::Rx(E1000::clean_rx_irq(rx_ring))
    }
}

impl Clean {
    /// The question that is open.
    pub fn request(&self) -> (request: Request)
        ensures
            request == self.asks(),
    {
        match self {
            Clean::Rx(clean) => Request::RxStatus { slot: clean.slot() },
            Clean::Refill(refill) => Request::RxBuffer { length: refill.length() },
            Clean::Tx(clean) => Request::TxStatus { slot: clean.slot() },
        }
    }

    /// Goes on from where the posting of buffers stands.
    fn after_refill(step: Step<AllocRxBuffers, ()>, tx_ring: &Ring) -> (next: Step<Clean, i32>)
        requires
            tx_ring.wf(),
        ensures
            forall|actions: Seq<Action>, rx_ring: Ring|
                next == (#[trigger] after_refill(actions, rx_ring, step, *tx_ring)).3,
            step matches Step::Wait(refill) ==> next == Step::<Clean, i32>::Wait(
                Clean::Refill(refill),
            ),
            step is Done ==> (next matches Step::Wait(Clean::Tx(clean)) && clean.wf(*tx_ring)),
            !(next is Done),
    {
        match step {
            Step::Wait(refill) => Step::Wait(Clean::Refill(refill)),
            Step::Done(_) => Step::Wait(Clean::Tx(E1000::clean_tx_irq(tx_ring))),
            Step::Fault(fault) => Step::Fault(fault),
        }
    }

    /// Goes on with an answer.
    pub fn step(
        self,
        rx_ring: &mut Ring,
        tx_ring: &mut Ring,
        reply: Reply,
        re: &mut Resource,
    ) -> (step: Step<Clean, i32>)
        requires
            self.wf(*old(rx_ring), *old(tx_ring)),
        ensures
            final(re)@ == old(re)@ + self.advance(*old(rx_ring), *old(tx_ring), reply).0,
            *final(rx_ring) == self.advance(*old(rx_ring), *old(tx_ring), reply).1,
            *final(tx_ring) == self.advance(*old(rx_ring), *old(tx_ring), reply).2,
            step == self.advance(*old(rx_ring), *old(tx_ring), reply).3,
            step matches Step::Wait(m) ==> m.wf(*final(rx_ring), *final(tx_ring)),
            final(rx_ring).wf(),
            final(tx_ring).wf(),
    {
        let ghost start = re@;
        let ghost next = self.advance(*rx_ring, *tx_ring, reply);
        match (self, reply) {
            (Clean::Rx(clean), Reply::RxStatus(desc)) => match clean.step(rx_ring, desc, re) {
                Step::Wait(clean) => Step::Wait(Clean::Rx(clean)),
                Step::Done(cleaned_count) => {
                    let refill = E1000::alloc_rx_buffers(re, rx_ring, cleaned_count as u16);
                    assert(re@ =~= start + next.0);
                    Clean::after_refill(refill, tx_ring)
                },
                Step::Fault(fault) => Step::Fault(fault),
            },
            (Clean::Refill(refill), Reply::RxBuffer(buffer)) => {
                let refill = refill.step(rx_ring, buffer, re);
                Clean::after_refill(refill, tx_ring)
            },
            (Clean::Tx(clean), Reply::TxStatus(upper)) => match clean.step(tx_ring, upper, re) {
                Step::Wait(clean) => Step::Wait(Clean::Tx(clean)),
                Step::Done(_) => {
                    re.push(Action::NapiComplete { work: 1 });
                    assert(re@ =~= start + next.0);
                    Step::Done(1)
                },
                Step::Fault(fault) => Step::Fault(fault),
            },
            (clean, _) => {
                assert(re@ =~= start + next.0);
                Step::Wait(clean)
            },
        }
    }
}

/// The record of handing frames on within a round of polling.
pub open spec fn frames_record(rx_ring: Ring, received: Seq<RxStatus>) -> Seq<
    Event<Request, Reply>,
> {
    retold(
        rx_record(rx_ring, received, 0, 0),
        |slot: usize| Request::RxStatus { slot },
        |desc: RxStatus| Reply::RxStatus(desc),
    )
}

/// The record of taking packets back within a round of polling.
pub open spec fn packets_record(tx_ring: Ring, done: Seq<u32>) -> Seq<Event<Request, Reply>> {
    retold(
        tx_record(tx_ring, done, 0, 0),
        |slot: usize| Request::TxStatus { slot },
        |upper: u32| Reply::TxStatus(upper),
    )
}

/// The record of a round of polling: frames, new buffers, packets, and the end of polling.
pub open spec fn clean_record(
    rx_ring: Ring,
    tx_ring: Ring,
    received: Seq<RxStatus>,
    buffers: Seq<RxBuffer>,
    done: Seq<u32>,
) -> Seq<Event<Request, Reply>> {
    frames_record(rx_ring, received) + buffers_record(
        cleaned(rx_ring, (received.len() - 1) as nat),
        buffers,
    ) + packets_record(tx_ring, done) + seq![Event::Did(Action::NapiComplete { work: 1 })]
}

/// The kernel is told that polling is over.
pub open spec fn completes<Q, R>(event: Event<Q, R>) -> bool {
    event matches Event::Did(action) && action is NapiComplete
}

/// The received frames of a round.
proof fn lemma_frames(rx_ring: Ring, tx_ring: Ring, received: Seq<RxStatus>)
    requires
        consistent(rx_ring),
        rx_statuses(received),
        received.len() - 1 <= used(rx_ring),
        frame_bytes(received, (received.len() - 1) as nat) <= u16::MAX,
    ensures
        ({
            let start = OnRings { procedure: Clean::Rx(clean_rx_irq(rx_ring)), rx_ring, tx_ring };
            let n = (received.len() - 1) as nat;
            let emptied = cleaned(rx_ring, n);
            run(start, received.map_values(|desc: RxStatus| Reply::RxStatus(desc))) == (
                frames_record(rx_ring, received),
                Step::<OnRings<Clean>, (i32, Ring, Ring)>::Wait(
                    OnRings {
                        procedure: if n == 0 {
                            Clean::Tx(clean_tx_irq(tx_ring))
                        } else {
                            Clean::Refill(
                                AllocRxBuffers { i: emptied.next_to_use as usize, left: n as u16 },
                            )
                        },
                        rx_ring: emptied,
                        tx_ring,
                    },
                ),
            )
        }),
{
    let n = (received.len() - 1) as nat;
    let emptied = cleaned(rx_ring, n);
    let f = |x: OnRing<CleanRxIrq>|
        OnRings { procedure: Clean::Rx(x.procedure), rx_ring: x.ring, tx_ring };
    let q = |slot: usize| Request::RxStatus { slot };
    let g = |desc: RxStatus| Reply::RxStatus(desc);
    let a = OnRing { procedure: clean_rx_irq(rx_ring), ring: rx_ring };
    law_unused(rx_ring);
    law_cleaned(rx_ring, n);
    law_clean_rx_irq(rx_ring, received);
    let last = lemma_run_last(a, received);
    let more = fill(emptied, emptied.next_to_use as int, n as u16);
    assert(more.0 =~= seq![] && more.1 == emptied && (n > 0 ==> more.2 is Wait)) by {
        law_unused(emptied);
        assert(nth(emptied, used(emptied)) == emptied.slot(emptied.next_to_use as int));
    }
    lemma_run_to_end(a, f, q, g, received, last, seq![]);
    assert(frames_record(rx_ring, received) + did(seq![]) =~= frames_record(rx_ring, received));
}

/// The new buffers of a round.
proof fn lemma_buffers(emptied: Ring, tx_ring: Ring, buffers: Seq<RxBuffer>)
    requires
        consistent(emptied),
        1 <= buffers.len() <= unused(emptied),
        mapped(buffers),
    ensures
        ({
            let refill = AllocRxBuffers {
                i: emptied.next_to_use as usize,
                left: buffers.len() as u16,
            };
            let start = OnRings { procedure: Clean::Refill(refill), rx_ring: emptied, tx_ring };
            run(start, buffers.map_values(|buffer: RxBuffer| Reply::RxBuffer(buffer))) == (
                buffers_record(emptied, buffers),
                Step::<OnRings<Clean>, (i32, Ring, Ring)>::Wait(
                    OnRings {
                        procedure: Clean::Tx(clean_tx_irq(tx_ring)),
                        rx_ring: filled(emptied, buffers),
                        tx_ring,
                    },
                ),
            )
        }),
{
    let refill = AllocRxBuffers { i: emptied.next_to_use as usize, left: buffers.len() as u16 };
    let f = |x: OnRing<AllocRxBuffers>|
        OnRings { procedure: Clean::Refill(x.procedure), rx_ring: x.ring, tx_ring };
    let q = |length: u32| Request::RxBuffer { length };
    let g = |buffer: RxBuffer| Reply::RxBuffer(buffer);
    let a = OnRing { procedure: refill, ring: emptied };
    law_alloc_rx_buffers(emptied, buffers);
    let last = lemma_run_last(a, buffers);
    assert(last.next(buffers.last()).0 + seq![] =~= last.next(buffers.last()).0);
    lemma_run_to_end(a, f, q, g, buffers, last, seq![]);
    assert(buffers_record(emptied, buffers) + did(seq![]) =~= buffers_record(emptied, buffers));
}

/// The sent packets of a round, and its end.
proof fn lemma_packets(rx_ring: Ring, tx_ring: Ring, done: Seq<u32>)
    requires
        consistent(tx_ring),
        tx_statuses(done),
        done.len() - 1 <= used(tx_ring),
        bytes_of(in_flight(tx_ring), (done.len() - 1) as nat) <= u32::MAX,
    ensures
        ({
            let start = OnRings { procedure: Clean::Tx(clean_tx_irq(tx_ring)), rx_ring, tx_ring };
            run(start, done.map_values(|upper: u32| Reply::TxStatus(upper))) == (
                packets_record(tx_ring, done) + seq![
                    Event::Did(Action::NapiComplete { work: 1 }),
                ],
                Step::<OnRings<Clean>, (i32, Ring, Ring)>::Done(
                    (1, rx_ring, cleaned(tx_ring, (done.len() - 1) as nat)),
                ),
            )
        }),
{
    let f = |x: OnRing<CleanTxIrq>|
        OnRings { procedure: Clean::Tx(x.procedure), rx_ring, tx_ring: x.ring };
    let q = |slot: usize| Request::TxStatus { slot };
    let g = |upper: u32| Reply::TxStatus(upper);
    let a = OnRing { procedure: clean_tx_irq(tx_ring), ring: tx_ring };
    let end = seq![Action::NapiComplete { work: 1 }];
    law_clean_tx_irq(tx_ring, done);
    let last = lemma_run_last(a, done);
    assert(last.next(done.last()).0 + end =~= last.next(done.last()).0.push(end[0]));
    lemma_run_to_end(a, f, q, g, done, last, end);
    assert(did::<Request, Reply>(end) =~= seq![Event::Did(Action::NapiComplete { work: 1 })]);
}

/// Handing frames on is not the end of polling.
proof fn lemma_frames_incomplete(ring: Ring, statuses: Seq<RxStatus>, packets: int, bytes: int)
    ensures
        forall|k: int|
            0 <= k < rx_record(ring, statuses, packets, bytes).len() ==> !completes(
                #[trigger] rx_record(ring, statuses, packets, bytes)[k],
            ),
    decreases statuses.len(),
{
    if statuses.len() > 1 {
        lemma_frames_incomplete(
            taken_back(ring),
            statuses.drop_first(),
            packets + 1,
            bytes + (statuses[0].length - 4),
        );
        let record = rx_record(ring, statuses, packets, bytes);
        let rest = rx_record(
            taken_back(ring),
            statuses.drop_first(),
            packets + 1,
            bytes + (statuses[0].length - 4),
        );
        assert forall|k: int| 0 <= k < record.len() implies !completes(#[trigger] record[k]) by {
            if k >= 4 {
                assert(record[k] == rest[k - 4]);
            }
        }
    }
}

/// Posting buffers is not the end of polling.
proof fn lemma_buffers_incomplete(ring: Ring, buffers: Seq<RxBuffer>)
    ensures
        forall|k: int|
            0 <= k < post_record(ring, buffers).len() ==> !completes(
                #[trigger] post_record(ring, buffers)[k],
            ),
    decreases buffers.len(),
{
    if buffers.len() > 1 {
        lemma_buffers_incomplete(filled_one(ring, buffers[0]), buffers.drop_first());
        let record = post_record(ring, buffers);
        let rest = post_record(filled_one(ring, buffers[0]), buffers.drop_first());
        assert forall|k: int| 0 <= k < record.len() implies !completes(#[trigger] record[k]) by {
            if k >= 2 {
                assert(record[k] == rest[k - 2]);
            }
        }
    }
}

/// Taking packets back is not the end of polling.
proof fn lemma_packets_incomplete(ring: Ring, statuses: Seq<u32>, packets: int, bytes: int)
    ensures
        forall|k: int|
            0 <= k < tx_record(ring, statuses, packets, bytes).len() ==> !completes(
                #[trigger] tx_record(ring, statuses, packets, bytes)[k],
            ),
    decreases statuses.len(),
{
    if statuses.len() > 1 {
        lemma_packets_incomplete(
            taken_back(ring),
            statuses.drop_first(),
            packets + 1,
            bytes + nth(ring, 0).skb->Some_0.len,
        );
        let record = tx_record(ring, statuses, packets, bytes);
        let rest = tx_record(
            taken_back(ring),
            statuses.drop_first(),
            packets + 1,
            bytes + nth(ring, 0).skb->Some_0.len,
        );
        assert forall|k: int| 0 <= k < record.len() implies !completes(#[trigger] record[k]) by {
            if k >= 4 {
                assert(record[k] == rest[k - 4]);
            }
        }
    }
}

/// The kernel is told that polling is over at the end of a round, and only there.
pub proof fn law_completes_last(
    rx_ring: Ring,
    tx_ring: Ring,
    received: Seq<RxStatus>,
    buffers: Seq<RxBuffer>,
    done: Seq<u32>,
    k: int,
)
    requires
        0 <= k < clean_record(rx_ring, tx_ring, received, buffers, done).len(),
    ensures
        completes(clean_record(rx_ring, tx_ring, received, buffers, done)[k]) <==> k
            == clean_record(rx_ring, tx_ring, received, buffers, done).len() - 1,
{
    let emptied = cleaned(rx_ring, (received.len() - 1) as nat);
    let a = rx_record(rx_ring, received, 0, 0);
    let b = post_record(emptied, buffers);
    let c = tx_record(tx_ring, done, 0, 0);
    lemma_frames_incomplete(rx_ring, received, 0, 0);
    lemma_buffers_incomplete(emptied, buffers);
    lemma_packets_incomplete(tx_ring, done, 0, 0);
    let n = buffers_record(emptied, buffers).len();
    if k < a.len() {
        assert(!completes(a[k]));
    } else if k < a.len() + n {
        assert(!completes(b[k - a.len()]));
    } else if k < a.len() + n + c.len() {
        assert(!completes(c[k - a.len() - n]));
    }
}

/// A round of polling on `n` received frames and as many sent packets as the adapter is done with
/// hands the frames on, posts `n` new buffers in their place, takes the packets back and tells the
/// kernel that polling is over, in this order. The number of receive buffers that are with the
/// adapter stays as it was.
pub proof fn law_clean(
    rx_ring: Ring,
    tx_ring: Ring,
    received: Seq<RxStatus>,
    buffers: Seq<RxBuffer>,
    done: Seq<u32>,
)
    requires
        consistent(rx_ring),
        rx_statuses(received),
        received.len() - 1 <= used(rx_ring),
        frame_bytes(received, (received.len() - 1) as nat) <= u16::MAX,
        buffers.len() == received.len() - 1,
        mapped(buffers),
        consistent(tx_ring),
        tx_statuses(done),
        done.len() - 1 <= used(tx_ring),
        bytes_of(in_flight(tx_ring), (done.len() - 1) as nat) <= u32::MAX,
    ensures
        ({
            let start = OnRings { procedure: Clean::Rx(clean_rx_irq(rx_ring)), rx_ring, tx_ring };
            let replies = received.map_values(|desc: RxStatus| Reply::RxStatus(desc))
                + buffers.map_values(|buffer: RxBuffer| Reply::RxBuffer(buffer))
                + done.map_values(|upper: u32| Reply::TxStatus(upper));
            let refilled = filled(cleaned(rx_ring, (received.len() - 1) as nat), buffers);
            let drained = cleaned(tx_ring, (done.len() - 1) as nat);
            let record = run(start, replies).0;
            &&& run(start, replies).1 == Step::<OnRings<Clean>, (i32, Ring, Ring)>::Done(
                (1, refilled, drained),
            )
            &&& record == clean_record(rx_ring, tx_ring, received, buffers, done)
            &&& record.last() == Event::<Request, Reply>::Did(Action::NapiComplete { work: 1 })
            &&& forall|k: int| 0 <= k < record.len() - 1 ==> !completes(#[trigger] record[k])
            &&& consistent(refilled)
            &&& used(refilled) == used(rx_ring)
            &&& consistent(drained)
        }),
{
    let n = (received.len() - 1) as nat;
    let emptied = cleaned(rx_ring, n);
    let refilled = filled(emptied, buffers);
    law_unused(rx_ring);
    law_cleaned(rx_ring, n);
    law_filled(emptied, buffers);
    law_cleaned(tx_ring, (done.len() - 1) as nat);
    let start = OnRings { procedure: Clean::Rx(clean_rx_irq(rx_ring)), rx_ring, tx_ring };
    let r1 = received.map_values(|desc: RxStatus| Reply::RxStatus(desc));
    let r2 = buffers.map_values(|buffer: RxBuffer| Reply::RxBuffer(buffer));
    let r3 = done.map_values(|upper: u32| Reply::TxStatus(upper));
    lemma_frames(rx_ring, tx_ring, received);
    if n == 0 {
        assert(r1 + r2 =~= r1);
        assert(frames_record(rx_ring, received) + buffers_record(emptied, buffers)
            =~= frames_record(rx_ring, received));
    } else {
        lemma_buffers(emptied, tx_ring, buffers);
        lemma_run_append(start, r1, r2);
    }
    lemma_packets(refilled, tx_ring, done);
    lemma_run_append(start, r1 + r2, r3);
    let record = clean_record(rx_ring, tx_ring, received, buffers, done);
    assert(run(start, r1 + r2 + r3).0 =~= record);
    assert forall|k: int| 0 <= k < record.len() - 1 implies !completes(#[trigger] record[k]) by {
        law_completes_last(rx_ring, tx_ring, received, buffers, done, k);
    }
}

/// A round of polling meets a fault when its part at hand does, and it is the same fault.
pub proof fn law_round_fault(
    rx_ring: Ring,
    tx_ring: Ring,
    rx: CleanRxIrq,
    refill: AllocRxBuffers,
    tx: CleanTxIrq,
    desc: RxStatus,
    buffer: RxBuffer,
    upper: u32,
    fault: Fault,
)
    ensures
        rx.advance(rx_ring, desc).2 == Step::<CleanRxIrq, usize>::Fault(fault) ==> Clean::Rx(
            rx,
        ).advance(rx_ring, tx_ring, Reply::RxStatus(desc)).3 == Step::<Clean, i32>::Fault(fault),
        refill.advance(rx_ring, buffer).2 == Step::<AllocRxBuffers, ()>::Fault(fault)
            ==> Clean::Refill(refill).advance(rx_ring, tx_ring, Reply::RxBuffer(buffer)).3
            == Step::<Clean, i32>::Fault(fault),
        tx.advance(tx_ring, upper).2 == Step::<CleanTxIrq, ()>::Fault(fault) ==> Clean::Tx(
            tx,
        ).advance(rx_ring, tx_ring, Reply::TxStatus(upper)).3 == Step::<Clean, i32>::Fault(fault),
{
}

/// A round asks for the status of the descriptor it has come to, on the ring it works on, or for a
/// buffer of 2048 bytes. An answer to another question changes nothing.
pub proof fn law_round_asks(clean: Clean, rx_ring: Ring, tx_ring: Ring, reply: Reply)
    ensures
        match clean {
            Clean::Rx(rx) => clean.asks() == (Request::RxStatus { slot: rx.i }),
            Clean::Refill(_) => clean.asks() == (Request::RxBuffer { length: 2048 }),
            Clean::Tx(tx) => clean.asks() == (Request::TxStatus { slot: tx.i }),
        },
        match clean {
            Clean::Rx(_) => !(reply is RxStatus),
            Clean::Refill(_) => !(reply is RxBuffer),
            Clean::Tx(_) => !(reply is TxStatus),
        } ==> clean.advance(rx_ring, tx_ring, reply) == (
            Seq::<Action>::empty(),
            rx_ring,
            tx_ring,
            Step::<Clean, i32>::Wait(clean),
        ),
{
}

/// Handing frames on and posting buffers leave the transmit ring alone, and taking packets back
/// leaves the receive ring alone. The posting starts where the last one ended, for as many buffers
/// as frames were handed on; the taking back starts from the oldest packet. The round ends when
/// that does, and not before.
pub proof fn law_round_parts(
    rx_ring: Ring,
    tx_ring: Ring,
    rx: CleanRxIrq,
    refill: AllocRxBuffers,
    tx: CleanTxIrq,
    desc: RxStatus,
    buffer: RxBuffer,
    upper: u32,
)
    ensures
        ({
            let part = rx.advance(rx_ring, desc);
            let (actions, rx_next, tx_next, step) = Clean::Rx(rx).advance(
                rx_ring,
                tx_ring,
                Reply::RxStatus(desc),
            );
            &&& tx_next == tx_ring
            &&& !(step is Done)
            &&& part.2 is Wait ==> {
                &&& actions == part.0
                &&& rx_next == part.1
                &&& step == Step::<Clean, i32>::Wait(Clean::Rx(part.2->Wait_0))
            }
            &&& part.2 matches Step::Done(n) ==> {
                let free = part.1.slot(part.1.next_to_use as int).skb is None;
                1 <= n <= 128 && free ==> {
                    &&& actions == part.0
                    &&& rx_next == part.1
                    &&& step matches Step::Wait(Clean::Refill(next))
                    &&& next.i == part.1.next_to_use
                    &&& next.left == n
                }
            }
        }),
        ({
            let part = refill.advance(rx_ring, buffer);
            let (actions, rx_next, tx_next, step) = Clean::Refill(refill).advance(
                rx_ring,
                tx_ring,
                Reply::RxBuffer(buffer),
            );
            &&& actions == part.0
            &&& rx_next == part.1
            &&& tx_next == tx_ring
            &&& !(step is Done)
            &&& part.2 matches Step::Wait(next) ==> step == Step::<Clean, i32>::Wait(
                Clean::Refill(next),
            )
            &&& part.2 is Done ==> step == Step::<Clean, i32>::Wait(
                Clean::Tx(
                    CleanTxIrq {
                        i: tx_ring.next_to_clean as usize,
                        pkts_compl: 0,
                        bytes_compl: 0,
                    },
                ),
            )
        }),
        ({
            let part = tx.advance(tx_ring, upper);
            let (actions, rx_next, tx_next, step) = Clean::Tx(tx).advance(
                rx_ring,
                tx_ring,
                Reply::TxStatus(upper),
            );
            &&& rx_next == rx_ring
            &&& tx_next == part.1
            &&& part.2 matches Step::Wait(next) ==> {
                &&& actions == part.0
                &&& step == Step::<Clean, i32>::Wait(Clean::Tx(next))
            }
            &&& part.2 is Done ==> {
                &&& actions == part.0.push(Action::NapiComplete { work: 1 })
                &&& step == Step::<Clean, i32>::Done(1)
            }
        }),
{
}

} // verus!
