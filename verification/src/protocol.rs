//! How a driver procedure talks to the world: it queues actions, asks one question at a time, and
//! ends with a result or a fault.

use vstd::prelude::*;
use crate::receive::{RxBuffer, RxStatus};
use crate::transmit::{Packet, TxDesc};

verus! {

/// One effect on the device or the kernel whose outcome no decision depends on. Actions are
/// performed in the order in which they were queued.
#[derive(Clone, Copy, PartialEq, Eq, Debug)]
#[allow(inconsistent_fields)]
pub enum Action {
    /// Write `value` to the device register at `offset`.
    Write { offset: usize, value: u32 },
    /// Read the device register at `offset` and drop the value.
    Read { offset: usize },
    /// Write `value` to the I/O port `port`.
    Outl { value: u32, port: u64 },
    /// Busy-wait for the constant given.
    ConstUdelay(u64),
    /// Busy-wait for the microseconds given.
    Udelay(u64),
    /// Sleep for the milliseconds given.
    Msleep(u32),
    /// Let other tasks run.
    CondResched,
    /// The sum of the EEPROM words is `checksum` and should be `expected`.
    ChecksumMismatch { checksum: u16, expected: u32 },
    /// Choose the device's regions that have one of `flags`.
    SelectBars { flags: u64 },
    /// Let the device master the bus.
    SetMaster,
    /// Give the network device its address.
    SetHwAddr { mac_addr: [u8; 6] },
    /// Give the network device its bounds on the transfer unit.
    SetMtuRange { min: u32, max: u32 },
    /// Let frames be sent without a checksum appended.
    AllowNoFcs,
    /// Give the network device the driver's operations.
    InstallOps,
    /// Have the driver's handler called on interrupts.
    RegisterIrq,
    /// Let the kernel hand packets over.
    StartQueue,
    /// Tell the kernel that the link is up.
    CarrierOn,
    /// Tell the kernel that the link is down.
    CarrierOff,
    /// Let the kernel poll the device.
    NapiEnable,
    /// Have the kernel poll the device soon.
    NapiSchedule,
    /// Tell the kernel that polling is over and `work` was done.
    NapiComplete { work: i32 },
    /// Pad the packet to be sent with zeroes to `length` bytes.
    PadSkb { length: u32 },
    /// Account for `bytes` bytes handed to the adapter.
    SentQueue { bytes: u32 },
    /// Account for packets that the adapter has sent.
    CompletedQueue { packets: u32, bytes: u32 },
    /// Fill in transmit descriptor `slot`.
    WriteTxDesc { slot: usize, desc: TxDesc },
    /// Clear the status of transmit descriptor `slot`.
    ClearTxDesc { slot: usize },
    /// Take the buffer of a sent packet back from the adapter.
    UnmapTx { dma: u64, length: usize },
    /// Give a sent packet back to the kernel.
    ConsumeSkb { skb: usize, budget: i32 },
    /// Add to the transmit statistics.
    TxStats { bytes: u64, packets: u64 },
    /// Point receive descriptor `slot` at the buffer at `addr`.
    PostRxDesc { slot: usize, addr: u64 },
    /// Clear the status and the address of receive descriptor `slot`.
    ClearRxDesc { slot: usize },
    /// Take a receive buffer back from the adapter.
    UnmapRx { dma: u64, length: usize },
    /// Hand a received frame of `length` bytes to the kernel.
    ReceiveSkb { skb: usize, length: u32 },
    /// Add to the receive statistics.
    RxStats { bytes: u64, packets: u64 },
}

/// Why a procedure cannot go on. The driver has no way to recover from any of these.
#[derive(Clone, Copy, PartialEq, Eq, Debug, Structural)]
pub enum Fault {
    /// The device did not grant access to the EEPROM in time.
    EepromNotGranted,
    /// The adapter was not done with a PHY register in time.
    PhyNotReady,
    /// The I/O ports run past the last one.
    PortRange,
    /// The device has no regions.
    NoRegions,
    /// The device has no I/O ports.
    NoPorts,
    /// The network device is in promiscuous mode.
    Promiscuous,
    /// The network device has additional unicast addresses.
    UnicastFilter,
    /// The network device's transfer unit is too long.
    MtuTooLong,
    /// The packet to be sent asks for segmentation.
    Segmented,
    /// The packet to be sent is in several fragments.
    Fragmented,
    /// The packet to be sent has more bytes outside its first fragment than in all.
    BadLength,
    /// A buffer could not be mapped for the adapter.
    NotMapped,
    /// A descriptor to be filled still has a buffer.
    SlotInUse,
    /// The adapter is done with a descriptor that has no buffer.
    NoBuffer,
    /// A received frame is shorter than its checksum.
    ShortFrame,
    /// The bytes of one round do not fit their counter.
    ByteCount,
}

/// Where a procedure stands after an answer: it waits for the next one in state `M`, has ended
/// with a result, or cannot go on.
#[derive(PartialEq, Eq, Debug)]
pub enum Step<M, T> {
    Wait(M),
    Done(T),
    Fault(Fault),
}

/// The behaviour of a procedure: what it asks for in each state, and what it queues and does next
/// on each answer.
pub trait Protocol: Sized {
    type Request;

    type Reply;

    type Result;

    /// The question whose answer the procedure waits for.
    spec fn asks(self) -> Self::Request;

    /// The actions queued on the answer `reply`, and where the procedure stands then.
    spec fn next(self, reply: Self::Reply) -> (Seq<Action>, Step<Self, Self::Result>);
}

/// A question that a procedure can have open.
#[derive(Clone, Copy, PartialEq, Eq, Debug)]
#[allow(inconsistent_fields)]
pub enum Request {
    /// What does the register hold?
    Register(u32),
    /// A new receive buffer of the length given, mapped for the adapter.
    RxBuffer { length: u32 },
    /// What are the status and length in receive descriptor `slot`?
    RxStatus { slot: usize },
    /// What is the status in transmit descriptor `slot`?
    TxStatus { slot: usize },
    /// What is to be known of the packet to be sent?
    Packet,
    /// Where does the adapter see the first `length` bytes of the packet to be sent?
    MapPacket { length: usize },
}

/// An answer to a question.
#[derive(Clone, Copy, PartialEq, Eq, Debug)]
pub enum Reply {
    Register(u32),
    RxBuffer(RxBuffer),
    RxStatus(RxStatus),
    TxStatus(u32),
    Packet(Packet),
    MapPacket(u64),
}

/// One entry in the record of a procedure's conversation with the world.
pub enum Event<Q, R> {
    /// An action was performed.
    Did(Action),
    /// A question was answered.
    Heard(Q, R),
}

/// The actions `actions` as a record.
pub open spec fn did<Q, R>(actions: Seq<Action>) -> Seq<Event<Q, R>> {
    Seq::new(actions.len(), |i: int| Event::Did(actions[i]))
}

/// Actions one after the other are recorded one after the other.
pub proof fn lemma_did_append<Q, R>(a: Seq<Action>, b: Seq<Action>)
    ensures
        did::<Q, R>(a + b) == did::<Q, R>(a) + did::<Q, R>(b),
{
    assert(did::<Q, R>(a + b) =~= did::<Q, R>(a) + did::<Q, R>(b));
}

/// The record of a question, its answer and the actions that follow.
pub open spec fn told<Q, R>(request: Q, reply: R, actions: Seq<Action>) -> Seq<Event<Q, R>> {
    seq![Event::Heard(request, reply)] + did(actions)
}

/// The record of one answer and the actions that follow it.
pub open spec fn turn<P: Protocol>(p: P, reply: P::Reply) -> Seq<Event<P::Request, P::Reply>> {
    told(p.asks(), reply, p.next(reply).0)
}

/// The record `record` with its questions and answers in another form.
pub open spec fn retold<Q, R, S, T>(
    record: Seq<Event<Q, R>>,
    question: spec_fn(Q) -> S,
    answer: spec_fn(R) -> T,
) -> Seq<Event<S, T>> {
    Seq::new(
        record.len(),
        |i: int|
            match record[i] {
                Event::Did(action) => Event::Did(action),
                Event::Heard(request, reply) => Event::Heard(question(request), answer(reply)),
            },
    )
}

/// The value last written to the register `reg` in the course of `record`.
pub open spec fn last_written<Q, R>(record: Seq<Event<Q, R>>, reg: u32) -> Option<u32>
    decreases record.len(),
{
    if record.len() == 0 {
        None
    } else {
        match record.last() {
            Event::Did(Action::Write { offset, value }) => if offset == reg {
                Some(value)
            } else {
                last_written(record.drop_last(), reg)
            },
            _ => last_written(record.drop_last(), reg),
        }
    }
}

/// What was written last was written later, if at all.
pub proof fn lemma_last_written<Q, R>(a: Seq<Event<Q, R>>, b: Seq<Event<Q, R>>, reg: u32)
    ensures
        last_written(a + b, reg) == match last_written(b, reg) {
            Some(value) => Some(value),
            None => last_written(a, reg),
        },
    decreases b.len(),
{
    if b.len() == 0 {
        assert(a + b =~= a);
    } else {
        assert((a + b).drop_last() =~= a + b.drop_last());
        lemma_last_written(a, b.drop_last(), reg);
    }
}

/// Where a register is not written, nothing was written to it last.
pub proof fn lemma_not_written<Q, R>(record: Seq<Event<Q, R>>, reg: u32)
    requires
        forall|i: int|
            0 <= i < record.len() ==> !(#[trigger] record[i] matches Event::Did(
                Action::Write { offset, value },
            ) && offset == reg),
    ensures
        last_written(record, reg) is None,
    decreases record.len(),
{
    if record.len() > 0 {
        assert forall|i: int| 0 <= i < record.drop_last().len() implies !(
        #[trigger] record.drop_last()[i] matches Event::Did(Action::Write { offset, value })
            && offset == reg) by {
            assert(record.drop_last()[i] == record[i]);
        }
        lemma_not_written(record.drop_last(), reg);
        assert(record.last() == record[record.len() - 1]);
    }
}

/// The record of the conversation that starts in state `p` and hears `replies` in turn, and where
/// the procedure stands at its end. Answers after the procedure has ended are not heard.
pub open spec fn run<P: Protocol>(p: P, replies: Seq<P::Reply>) -> (
    Seq<Event<P::Request, P::Reply>>,
    Step<P, P::Result>,
)
    decreases replies.len(),
{
    if replies.len() == 0 {
        (Seq::empty(), Step::Wait(p))
    } else {
        match p.next(replies[0]).1 {
            Step::Wait(q) => {
                let rest = run(q, replies.drop_first());
                (turn(p, replies[0]) + rest.0, rest.1)
            },
            end => (turn(p, replies[0]), end),
        }
    }
}

/// A write after which the register is not written again is the last one.
pub proof fn lemma_last_at<Q, R>(record: Seq<Event<Q, R>>, reg: u32, i: int)
    requires
        0 <= i < record.len(),
        record[i] matches Event::Did(Action::Write { offset, value }) && offset == reg,
        forall|j: int|
            i < j < record.len() ==> !(#[trigger] record[j] matches Event::Did(
                Action::Write { offset, value },
            ) && offset == reg),
    ensures
        record[i] matches Event::Did(Action::Write { offset, value }) && last_written(record, reg)
            == Some(value),
    decreases record.len(),
{
    if i < record.len() - 1 {
        assert(!(record[record.len() - 1] matches Event::Did(Action::Write { offset, value })
            && offset == reg));
        assert forall|j: int| i < j < record.drop_last().len() implies !(
        #[trigger] record.drop_last()[j] matches Event::Did(Action::Write { offset, value })
            && offset == reg) by {
            assert(record.drop_last()[j] == record[j]);
        }
        lemma_last_at(record.drop_last(), reg, i);
    }
}

/// A conversation of a single answer.
pub proof fn lemma_run_one<P: Protocol>(p: P, reply: P::Reply)
    ensures
        run(p, seq![reply]) == (turn(p, reply), p.next(reply).1),
{
    reveal_with_fuel(run, 2);
    assert(seq![reply].drop_first() =~= Seq::empty());
    assert(turn(p, reply) + Seq::empty() =~= turn(p, reply));
}

/// A conversation goes on from where its first part left it.
pub proof fn lemma_run_append<P: Protocol>(p: P, first: Seq<P::Reply>, second: Seq<P::Reply>)
    ensures
        run(p, first).1 matches Step::Wait(q) ==> run(p, first + second) == (
            run(p, first).0 + run(q, second).0,
            run(q, second).1,
        ),
    decreases first.len(),
{
    if first.len() == 0 {
        assert(first + second =~= second);
        assert(Seq::<Event<P::Request, P::Reply>>::empty() + run(p, second).0 =~= run(p, second).0);
    } else {
        assert((first + second).drop_first() =~= first.drop_first() + second);
        match p.next(first[0]).1 {
            Step::Wait(q) => {
                lemma_run_append(q, first.drop_first(), second);
                match run(q, first.drop_first()).1 {
                    Step::Wait(r) => {
                        assert(turn(p, first[0]) + (run(q, first.drop_first()).0 + run(r, second).0)
                            =~= (turn(p, first[0]) + run(q, first.drop_first()).0) + run(
                            r,
                            second,
                        ).0);
                    },
                    _ => {},
                }
            },
            _ => {},
        }
    }
}

/// A part of a larger procedure that does nothing of its own meanwhile holds the same
/// conversation as it would alone.
pub proof fn lemma_run_inside<A: Protocol, B: Protocol<Request = A::Request, Reply = A::Reply>>(
    a: A,
    f: spec_fn(A) -> B,
    replies: Seq<A::Reply>,
)
    requires
        forall|x: A| f(x).asks() == #[trigger] x.asks(),
        forall|x: A, r: A::Reply|
            (#[trigger] x.next(r)).1 matches Step::Wait(y) ==> f(x).next(r) == (
                x.next(r).0,
                Step::<B, B::Result>::Wait(f(y)),
            ),
    ensures
        run(a, replies).1 matches Step::Wait(b) ==> run(f(a), replies) == (
            run(a, replies).0,
            Step::<B, B::Result>::Wait(f(b)),
        ),
    decreases replies.len(),
{
    if replies.len() > 0 {
        assert(a.asks() == f(a).asks());
        if let Step::Wait(q) = a.next(replies[0]).1 {
            lemma_run_inside(q, f, replies.drop_first());
        }
    }
}

/// A procedure in which every answer lowers `rank` hears no more answers than that.
pub proof fn lemma_run_ends<P: Protocol>(p: P, rank: spec_fn(P) -> nat, replies: Seq<P::Reply>)
    requires
        forall|x: P, r: P::Reply|
            (#[trigger] x.next(r)).1 matches Step::Wait(y) ==> rank(y) < rank(x),
    ensures
        run(p, replies).1 is Wait ==> replies.len() <= rank(p),
    decreases replies.len(),
{
    if replies.len() > 0 {
        if let Step::Wait(q) = p.next(replies[0]).1 {
            lemma_run_ends(q, rank, replies.drop_first());
        }
    }
}

/// Two conversations, the second from where the first left off, are one.
pub proof fn lemma_run_join<P: Protocol>(
    p: P,
    first: Seq<P::Reply>,
    record: Seq<Event<P::Request, P::Reply>>,
    q: P,
    second: Seq<P::Reply>,
)
    requires
        run(p, first) == (record, Step::<P, P::Result>::Wait(q)),
    ensures
        run(p, first + second) == (record + run(q, second).0, run(q, second).1),
{
    lemma_run_append(p, first, second);
}

/// One more answer.
pub proof fn lemma_run_push<P: Protocol>(p: P, replies: Seq<P::Reply>, reply: P::Reply)
    ensures
        run(p, replies).1 matches Step::Wait(q) ==> run(p, replies.push(reply)) == (
            run(p, replies).0 + turn(q, reply),
            q.next(reply).1,
        ),
{
    if let Step::Wait(q) = run(p, replies).1 {
        lemma_run_append(p, replies, seq![reply]);
        lemma_run_one(q, reply);
        assert(replies + seq![reply] =~= replies.push(reply));
    }
}

/// Where a conversation stands at its end is where the last answer leads to.
pub proof fn lemma_run_last<P: Protocol>(p: P, replies: Seq<P::Reply>) -> (last: P)
    requires
        replies.len() > 0,
        run(p, replies.drop_last()).1 is Wait,
    ensures
        run(p, replies.drop_last()).1 == Step::<P, P::Result>::Wait(last),
        run(p, replies).1 == last.next(replies.last()).1,
{
    let last = run(p, replies.drop_last()).1->Wait_0;
    lemma_run_append(p, replies.drop_last(), seq![replies.last()]);
    lemma_run_one(last, replies.last());
    assert(replies.drop_last() + seq![replies.last()] =~= replies);
    last
}

/// A part of a larger procedure that does nothing of its own meanwhile holds the same conversation
/// as it would alone, also where its questions and answers come in another form.
pub proof fn lemma_run_retold<A: Protocol, B: Protocol>(
    a: A,
    f: spec_fn(A) -> B,
    question: spec_fn(A::Request) -> B::Request,
    answer: spec_fn(A::Reply) -> B::Reply,
    replies: Seq<A::Reply>,
)
    requires
        forall|x: A| f(x).asks() == question(#[trigger] x.asks()),
        forall|x: A, r: A::Reply|
            (#[trigger] x.next(r)).1 matches Step::Wait(y) ==> f(x).next(answer(r)) == (
                x.next(r).0,
                Step::<B, B::Result>::Wait(f(y)),
            ),
    ensures
        run(a, replies).1 matches Step::Wait(b) ==> run(f(a), replies.map_values(answer)) == (
            retold(run(a, replies).0, question, answer),
            Step::<B, B::Result>::Wait(f(b)),
        ),
    decreases replies.len(),
{
    if replies.len() == 0 {
        assert(retold(run(a, replies).0, question, answer) =~= Seq::<
            Event<B::Request, B::Reply>,
        >::empty());
    } else {
        let rest = replies.drop_first();
        assert(replies.map_values(answer).drop_first() =~= rest.map_values(answer));
        assert(f(a).asks() == question(a.asks()));
        if let Step::Wait(q) = a.next(replies[0]).1 {
            lemma_run_retold(q, f, question, answer, rest);
            assert(retold(run(a, replies).0, question, answer) =~= turn(
                f(a),
                answer(replies[0]),
            ) + retold(run(q, rest).0, question, answer));
        }
    }
}

/// A part of a larger procedure, up to and with the answer that ends it. The larger procedure then
/// does `extra` after what the part does.
pub proof fn lemma_run_to_end<A: Protocol, B: Protocol>(
    a: A,
    f: spec_fn(A) -> B,
    question: spec_fn(A::Request) -> B::Request,
    answer: spec_fn(A::Reply) -> B::Reply,
    replies: Seq<A::Reply>,
    last: A,
    extra: Seq<Action>,
)
    requires
        forall|x: A| f(x).asks() == question(#[trigger] x.asks()),
        forall|x: A, r: A::Reply|
            (#[trigger] x.next(r)).1 matches Step::Wait(y) ==> f(x).next(answer(r)) == (
                x.next(r).0,
                Step::<B, B::Result>::Wait(f(y)),
            ),
        replies.len() > 0,
        run(a, replies.drop_last()).1 == Step::<A, A::Result>::Wait(last),
        f(last).next(answer(replies.last())).0 == last.next(replies.last()).0 + extra,
    ensures
        run(f(a), replies.map_values(answer)) == (
            retold(run(a, replies).0, question, answer) + did(extra),
            f(last).next(answer(replies.last())).1,
        ),
        run(f(a), replies.map_values(answer).drop_last()).1 is Wait,
{
    let (init, r) = (replies.drop_last(), replies.last());
    assert(init.push(r) =~= replies);
    assert(init.map_values(answer).push(answer(r)) =~= replies.map_values(answer));
    assert(replies.map_values(answer).drop_last() =~= init.map_values(answer));
    lemma_run_retold(a, f, question, answer, init);
    lemma_run_push(a, init, r);
    lemma_run_push(f(a), init.map_values(answer), answer(r));
    assert(f(last).asks() == question(last.asks()));
    assert(retold(run(a, init).0, question, answer) + turn(f(last), answer(r)) =~= retold(
        run(a, replies).0,
        question,
        answer,
    ) + did(extra));
}

} // verus!
