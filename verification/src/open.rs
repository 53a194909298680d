//! Bringing the device up: the PHY is powered, both units are set up, receive buffers are posted,
//! and then traffic is let through.

use vstd::prelude::*;
use crate::bits::lemma_set_clear;
use crate::control::{
    configure_rx_actions, configure_tx_actions, irq_enable_actions, rx_control, tx_control,
};
use crate::defs::{
    E1000_ICS, E1000_ICS_LSC, E1000_ICS_RXDMT0, E1000_MDIC_READY, E1000_RCTL, E1000_RCTL_EN,
    E1000_RDT, E1000_TCTL, E1000_TCTL_EN, ETH_DATA_LEN, RXBUFFER_2048,
};
use crate::filter::{NetDevice, SetRxMode, set_rx_mode_actions};
use crate::phy::{PowerUpPhy, law_power_up_phy, power_up_phy};
use crate::protocol::{
    Action, Event, Fault, Protocol, Reply, Request, Step, did, last_written, lemma_last_at,
    lemma_not_written, lemma_run_append, lemma_run_inside, lemma_run_join, lemma_run_last,
    lemma_run_one, lemma_run_push, lemma_run_to_end, retold, run, told, turn,
};
use crate::queue::{
    buffers_record, consistent, filled, filled_one, in_flight, law_alloc_rx_buffers, law_filled,
    law_unused, mapped, nth, post_record, skbs_of, used,
};
use crate::receive::{AllocRxBuffers, RxBuffer, before, fill};
use crate::resource::{Resource, reg_write};
use crate::ring::{OnRing, Ring, after, unused};
use crate::E1000;

verus! {

/// How far the set-up of the units has come.
#[derive(Clone, Copy, PartialEq, Eq, Debug)]
pub enum ConfigurePhase {
    /// The receive mode is being set.
    RxMode(SetRxMode),
    /// The transmit control register is to be set.
    Tctl,
    /// The receive control register is to be set.
    Rctl,
    /// The receive unit is to be set up.
    RxUnit,
    /// Receive buffers are being posted.
    Buffers(AllocRxBuffers),
}

/// Setting up both units and posting receive buffers.
#[derive(Clone, Copy, PartialEq, Eq, Debug)]
pub struct Configure {
    pub netdev: NetDevice,
    pub phase: ConfigurePhase,
}

/// The set-up, about to begin.
pub open spec fn configure(netdev: NetDevice) -> Configure {
    Configure { netdev, phase: ConfigurePhase::RxMode(SetRxMode { netdev }) }
}

impl Configure {
    /// The same set-up in another phase.
    pub open spec fn at(self, phase: ConfigurePhase) -> Configure {
        Configure { phase, ..self }
    }

    /// A descriptor is to be filled, if buffers are being posted.
    pub open spec fn wf(self) -> bool {
        self.phase matches ConfigurePhase::Buffers(alloc) ==> alloc.wf()
    }

    /// The question that is open.
    pub open spec fn asks(self) -> Request {
        match self.phase {
            ConfigurePhase::RxMode(mode) => Request::Register(mode.asks()),
            ConfigurePhase::Tctl => Request::Register(E1000_TCTL),
            ConfigurePhase::Rctl => Request::Register(E1000_RCTL),
            ConfigurePhase::RxUnit => Request::Register(E1000_RCTL),
            ConfigurePhase::Buffers(_) => Request::RxBuffer { length: RXBUFFER_2048 },
        }
    }

    /// Where the set-up stands when the posting of buffers stands at `step`.
    pub open spec fn posting(self, step: Step<AllocRxBuffers, ()>) -> Step<Configure, ()> {
        match step {
            Step::Wait(alloc) => Step::Wait(self.at(ConfigurePhase::Buffers(alloc))),
            Step::Done(_) => Step::Done(()),
            Step::Fault(fault) => Step::Fault(fault),
        }
    }

    /// What an answer leads to: the actions queued, the receive ring, and where the set-up
    /// stands. An answer to another question leads to nothing.
    pub open spec fn advance(self, tx_ring: Ring, rx_ring: Ring, reply: Reply) -> (
        Seq<Action>,
        Ring,
        Step<Configure, ()>,
    ) {
        match (self.phase, reply) {
            (ConfigurePhase::RxMode(mode), Reply::Register(rctl)) => {
                let (actions, step) = mode.next(rctl);
                match step {
                    Step::Wait(mode) => (
                        actions,
                        rx_ring,
                        Step::Wait(self.at(ConfigurePhase::RxMode(mode))),
                    ),
                    Step::Done(_) => (
                        actions + configure_tx_actions(tx_ring.dma_addr),
                        rx_ring,
                        Step::Wait(self.at(ConfigurePhase::Tctl)),
                    ),
                    Step::Fault(fault) => (actions, rx_ring, Step::Fault(fault)),
                }
            },
            (ConfigurePhase::Tctl, Reply::Register(tctl)) => (
                seq![reg_write(E1000_TCTL, tx_control(tctl))],
                rx_ring,
                Step::Wait(self.at(ConfigurePhase::Rctl)),
            ),
            (ConfigurePhase::Rctl, Reply::Register(rctl)) => if self.netdev.mtu <= ETH_DATA_LEN {
                (
                    seq![reg_write(E1000_RCTL, rx_control(rctl))],
                    rx_ring,
                    Step::Wait(self.at(ConfigurePhase::RxUnit)),
                )
            } else {
                (seq![], rx_ring, Step::Fault(Fault::MtuTooLong))
            },
            (ConfigurePhase::RxUnit, Reply::Register(rctl)) => {
                let (more, filled, step) = fill(
                    rx_ring,
                    rx_ring.next_to_use as int,
                    unused(rx_ring) as u16,
                );
                (
                    configure_rx_actions(rx_ring.dma_addr, rctl) + more,
                    filled,
                    self.posting(step),
                )
            },
            (ConfigurePhase::Buffers(alloc), Reply::RxBuffer(buffer)) => {
                let (actions, rx_ring, step) = alloc.advance(rx_ring, buffer);
                (actions, rx_ring, self.posting(step))
            },
            _ => (seq![], rx_ring, Step::Wait(self)),
        }
    }
}

impl E1000 {
    /// Begins to set up both units.
    pub fn configure(netdev: &NetDevice) -> (start: Configure)
        ensures
            start == configure(*netdev),
            start.wf(),
    {
        Configure {
            netdev: *netdev,
            phase: ConfigurePhase::RxMode(SetRxMode { netdev: *netdev }),
        }
    }
}

impl Configure {
    /// The question that is open.
    pub fn request(&self) -> (request: Request)
        ensures
            request == self.asks(),
    {
        match self.phase {
            ConfigurePhase::RxMode(mode) => Request::Register(mode.register()),
            ConfigurePhase::Tctl => Request::Register(E1000_TCTL),
            ConfigurePhase::Rctl => Request::Register(E1000_RCTL),
            ConfigurePhase::RxUnit => Request::Register(E1000_RCTL),
            ConfigurePhase::Buffers(alloc) => Request::RxBuffer { length: alloc.length() },
        }
    }

    /// Goes on with an answer.
    pub fn step(
        self,
        tx_ring: &Ring,
        rx_ring: &mut Ring,
        reply: Reply,
        re: &mut Resource,
    ) -> (step: Step<Configure, ()>)
        requires
            self.wf(),
            old(rx_ring).wf(),
        ensures
            final(re)@ == old(re)@ + self.advance(*tx_ring, *old(rx_ring), reply).0,
            *final(rx_ring) == self.advance(*tx_ring, *old(rx_ring), reply).1,
            step == self.advance(*tx_ring, *old(rx_ring), reply).2,
            step matches Step::Wait(m) ==> m.wf(),
            final(rx_ring).wf(),
    {
        let ghost start = re@;
        let ghost next = self.advance(*tx_ring, *rx_ring, reply);
        let netdev = self.netdev;
        match (self.phase, reply) {
            (ConfigurePhase::RxMode(mode), Reply::Register(rctl)) => match mode.step(rctl, re) {
                Step::Wait(mode) => Step::Wait(
                    Configure { netdev, phase: ConfigurePhase::RxMode(mode) },
                ),
                Step::Done(_) => {
                    E1000::configure_tx(re, tx_ring);
                    assert(re@ =~= start + next.0);
                    Step::Wait(Configure { netdev, phase: ConfigurePhase::Tctl })
                },
                Step::Fault(fault) => Step::Fault(fault),
            },
            (ConfigurePhase::Tctl, Reply::Register(tctl)) => {
                E1000::configure_tctl(re, tctl);
                Step::Wait(Configure { netdev, phase: ConfigurePhase::Rctl })
            },
            (ConfigurePhase::Rctl, Reply::Register(rctl)) => {
                if netdev.mtu > ETH_DATA_LEN {
                    assert(re@ =~= start + next.0);
                    return Step::Fault(Fault::MtuTooLong);
                }
                E1000::setup_rctl(re, &netdev, rctl);
                Step::Wait(Configure { netdev, phase: ConfigurePhase::RxUnit })
            },
            (ConfigurePhase::RxUnit, Reply::Register(rctl)) => {
                E1000::configure_rx(re, rx_ring, rctl);
                let cleaned_count: u16 = E1000::unused_desc(rx_ring);
                let alloc = E1000::alloc_rx_buffers(re, rx_ring, cleaned_count);
                assert(re@ =~= start + next.0);
                match alloc {
                    Step::Wait(alloc) => Step::Wait(
                        Configure { netdev, phase: ConfigurePhase::Buffers(alloc) },
                    ),
                    Step::Done(_) => Step::Done(()),
                    Step::Fault(fault) => Step::Fault(fault),
                }
            },
            (ConfigurePhase::Buffers(alloc), Reply::RxBuffer(buffer)) => {
                match alloc.step(rx_ring, buffer, re) {
                    Step::Wait(alloc) => Step::Wait(
                        Configure { netdev, phase: ConfigurePhase::Buffers(alloc) },
                    ),
                    Step::Done(_) => Step::Done(()),
                    Step::Fault(fault) => Step::Fault(fault),
                }
            },
            _ => {
                assert(re@ =~= start + next.0);
                Step::Wait(self)
            },
        }
    }
}

/// Bringing the device up, as far as its rings are concerned.
#[derive(Clone, Copy, PartialEq, Eq, Debug)]
pub enum Open {
    /// The PHY is being powered up.
    PowerUp { netdev: NetDevice, power_up: PowerUpPhy },
    /// The units are being set up.
    Units(Configure),
}

/// The bringing up, about to begin.
pub open spec fn open_device(netdev: NetDevice) -> Open {
    Open::PowerUp { netdev, power_up: power_up_phy() }
}

impl Open {
    /// A descriptor is to be filled, if buffers are being posted.
    pub open spec fn wf(self) -> bool {
        self matches Open::Units(configure) ==> configure.wf()
    }

    /// The question that is open.
    pub open spec fn asks(self) -> Request {
        match self {
            Open::PowerUp { netdev, power_up } => Request::Register(power_up.asks()),
            Open::Units(configure) => configure.asks(),
        }
    }

    /// What an answer leads to: the actions queued, the receive ring, and where the procedure
    /// stands. An answer to another question leads to nothing.
    pub open spec fn advance(self, tx_ring: Ring, rx_ring: Ring, reply: Reply) -> (
        Seq<Action>,
        Ring,
        Step<Open, ()>,
    ) {
        match (self, reply) {
            (Open::PowerUp { netdev, power_up }, Reply::Register(value)) => (
                power_up.next(value).0,
                rx_ring,
                match power_up.next(value).1 {
                    Step::Wait(power_up) => Step::Wait(Open::PowerUp { netdev, power_up }),
                    Step::Done(_) => Step::Wait(Open::Units(configure(netdev))),
                    Step::Fault(fault) => Step::Fault(fault),
                },
            ),
            (Open::Units(configure), reply) => {
                let (actions, rx_ring, step) = configure.advance(tx_ring, rx_ring, reply);
                (
                    actions,
                    rx_ring,
                    match step {
                        Step::Wait(configure) => Step::Wait(Open::Units(configure)),
                        Step::Done(_) => Step::Done(()),
                        Step::Fault(fault) => Step::Fault(fault),
                    },
                )
            },
            _ => (seq![], rx_ring, Step::Wait(self)),
        }
    }
}

/// A procedure together with the ring it reads and the ring it fills.
pub struct OnNewRings<M> {
    pub procedure: M,
    pub tx_ring: Ring,
    pub rx_ring: Ring,
}

impl Protocol for OnNewRings<Open> {
    type Request = Request;

    type Reply = Reply;

    type Result = Ring;

    open spec fn asks(self) -> Request {
        self.procedure.asks()
    }

    open spec fn next(self, reply: Reply) -> (Seq<Action>, Step<OnNewRings<Open>, Ring>) {
        let (actions, rx_ring, step) = self.procedure.advance(self.tx_ring, self.rx_ring, reply);
        (
            actions,
            match step {
                Step::Wait(procedure) => Step::Wait(OnNewRings { procedure, rx_ring, ..self }),
                Step::Done(_) => Step::Done(rx_ring),
                Step::Fault(fault) => Step::Fault(fault),
            },
        )
    }
}

impl E1000 {
    /// Begins to bring the device up.
    pub fn open(netdev: &NetDevice) -> (start: Open)
        ensures
            start == open_device(*netdev),
            start.wf(),
    {
        Open::PowerUp { netdev: *netdev, power_up: E1000::power_up_phy() }
    }
}

impl Open {
    /// The question that is open.
    pub fn request(&self) -> (request: Request)
        ensures
            request == self.asks(),
    {
        match self {
            Open::PowerUp { power_up, .. } => Request::Register(power_up.register()),
            Open::Units(configure) => configure.request(),
        }
    }

    /// Goes on with an answer.
    pub fn step(
        self,
        tx_ring: &Ring,
        rx_ring: &mut Ring,
        reply: Reply,
        re: &mut Resource,
    ) -> (step: Step<Open, ()>)
        requires
            self.wf(),
            old(rx_ring).wf(),
        ensures
            final(re)@ == old(re)@ + self.advance(*tx_ring, *old(rx_ring), reply).0,
            *final(rx_ring) == self.advance(*tx_ring, *old(rx_ring), reply).1,
            step == self.advance(*tx_ring, *old(rx_ring), reply).2,
            step matches Step::Wait(m) ==> m.wf(),
            final(rx_ring).wf(),
    {
        match (self, reply) {
            (Open::PowerUp { netdev, power_up }, Reply::Register(value)) => {
                match power_up.step(value, re) {
                    Step::Wait(power_up) => Step::Wait(Open::PowerUp { netdev, power_up }),
                    Step::Done(_) => Step::Wait(Open::Units(E1000::configure(&netdev))),
                    Step::Fault(fault) => Step::Fault(fault),
                }
            },
            (Open::Units(configure), reply) => {
                match configure.step(tx_ring, rx_ring, reply, re) {
                    Step::Wait(configure) => Step::Wait(Open::Units(configure)),
                    Step::Done(_) => Step::Done(()),
                    Step::Fault(fault) => Step::Fault(fault),
                }
            },
            _ => {
                assert(re@ =~= old(re)@ + self.advance(*tx_ring, *rx_ring, reply).0);
                Step::Wait(self)
            },
        }
    }
}

/// The answers that bring a device up: those of the PHY, whose `samples` are the bits of its
/// control register, what the control registers held, and the receive buffers.
pub open spec fn open_answers(
    levels: (u32, u32, u32),
    samples: Seq<u32>,
    mdic: u32,
    registers: (u32, u32, u32, u32),
    buffers: Seq<RxBuffer>,
) -> Seq<Reply> {
    (seq![levels.0, levels.1, levels.2] + samples).push(mdic).map_values(
        |value: u32| Reply::Register(value),
    ) + seq![
        Reply::Register(registers.0),
        Reply::Register(registers.1),
        Reply::Register(registers.2),
        Reply::Register(registers.3),
    ] + buffers.map_values(|buffer: RxBuffer| Reply::RxBuffer(buffer))
}

/// The record of powering the PHY up while a device is brought up.
pub open spec fn phy_record(levels: (u32, u32, u32), samples: Seq<u32>, mdic: u32) -> Seq<
    Event<Request, Reply>,
> {
    retold(
        run(power_up_phy(), (seq![levels.0, levels.1, levels.2] + samples).push(mdic)).0,
        |reg: u32| Request::Register(reg),
        |value: u32| Reply::Register(value),
    )
}

/// The record of setting up the units: receive mode and transmit unit, transmit control, receive
/// control, and receive unit.
pub open spec fn units_record(
    netdev: NetDevice,
    tx_addr: u64,
    rx_addr: u64,
    registers: (u32, u32, u32, u32),
) -> Seq<Event<Request, Reply>> {
    told(
        Request::Register(E1000_RCTL),
        Reply::Register(registers.0),
        set_rx_mode_actions(netdev, registers.0) + configure_tx_actions(tx_addr),
    ) + told(
        Request::Register(E1000_TCTL),
        Reply::Register(registers.1),
        seq![reg_write(E1000_TCTL, tx_control(registers.1))],
    ) + told(
        Request::Register(E1000_RCTL),
        Reply::Register(registers.2),
        seq![reg_write(E1000_RCTL, rx_control(registers.2))],
    ) + told(
        Request::Register(E1000_RCTL),
        Reply::Register(registers.3),
        configure_rx_actions(rx_addr, registers.3),
    )
}

/// The record of setting up a device: PHY, units, receive buffers.
pub open spec fn open_record(
    netdev: NetDevice,
    tx_ring: Ring,
    rx_ring: Ring,
    levels: (u32, u32, u32),
    samples: Seq<u32>,
    mdic: u32,
    registers: (u32, u32, u32, u32),
    buffers: Seq<RxBuffer>,
) -> Seq<Event<Request, Reply>> {
    phy_record(levels, samples, mdic) + units_record(
        netdev,
        tx_ring.dma_addr,
        rx_ring.dma_addr,
        registers,
    ) + buffers_record(rx_ring, buffers)
}

/// The PHY is powered up.
proof fn lemma_phy_part(
    netdev: NetDevice,
    tx_ring: Ring,
    rx_ring: Ring,
    levels: (u32, u32, u32),
    samples: Seq<u32>,
    mdic: u32,
)
    requires
        samples.len() == 16,
        mdic & E1000_MDIC_READY != 0,
    ensures
        run(
            OnNewRings { procedure: open_device(netdev), tx_ring, rx_ring },
            (seq![levels.0, levels.1, levels.2] + samples).push(mdic).map_values(
                |value: u32| Reply::Register(value),
            ),
        ) == (
            phy_record(levels, samples, mdic),
            Step::<OnNewRings<Open>, Ring>::Wait(
                OnNewRings { procedure: Open::Units(configure(netdev)), tx_ring, rx_ring },
            ),
        ),
{
    let f = |x: PowerUpPhy|
        OnNewRings { procedure: Open::PowerUp { netdev, power_up: x }, tx_ring, rx_ring };
    let q = |reg: u32| Request::Register(reg);
    let g = |value: u32| Reply::Register(value);
    let phy = (seq![levels.0, levels.1, levels.2] + samples).push(mdic);
    assert(phy.drop_last() =~= seq![levels.0, levels.1, levels.2] + samples);
    law_power_up_phy(levels, samples, mdic);
    let last = lemma_run_last(power_up_phy(), phy);
    assert(last.next(mdic).0 + seq![] =~= last.next(mdic).0);
    lemma_run_to_end(power_up_phy(), f, q, g, phy, last, seq![]);
    assert(phy_record(levels, samples, mdic) + did(seq![]) =~= phy_record(levels, samples, mdic));
}

/// The units are set up.
proof fn lemma_units_part(
    netdev: NetDevice,
    tx_ring: Ring,
    rx_ring: Ring,
    registers: (u32, u32, u32, u32),
)
    requires
        netdev.plain_filter(),
        netdev.mtu <= ETH_DATA_LEN,
        consistent(rx_ring),
        1 <= unused(rx_ring),
    ensures
        run(
            OnNewRings { procedure: Open::Units(configure(netdev)), tx_ring, rx_ring },
            seq![
                Reply::Register(registers.0),
                Reply::Register(registers.1),
                Reply::Register(registers.2),
                Reply::Register(registers.3),
            ],
        ) == (
            units_record(netdev, tx_ring.dma_addr, rx_ring.dma_addr, registers),
            Step::<OnNewRings<Open>, Ring>::Wait(
                OnNewRings {
                    procedure: Open::Units(
                        configure(netdev).at(
                            ConfigurePhase::Buffers(
                                AllocRxBuffers {
                                    i: rx_ring.next_to_use as usize,
                                    left: unused(rx_ring) as u16,
                                },
                            ),
                        ),
                    ),
                    tx_ring,
                    rx_ring,
                },
            ),
        ),
{
    let first = configure(netdev);
    let (a, b, c, d) = (
        Reply::Register(registers.0),
        Reply::Register(registers.1),
        Reply::Register(registers.2),
        Reply::Register(registers.3),
    );
    let p1 = OnNewRings { procedure: Open::Units(first), tx_ring, rx_ring };
    let p2 = OnNewRings { procedure: Open::Units(first.at(ConfigurePhase::Tctl)), ..p1 };
    let p3 = OnNewRings { procedure: Open::Units(first.at(ConfigurePhase::Rctl)), ..p1 };
    let p4 = OnNewRings { procedure: Open::Units(first.at(ConfigurePhase::RxUnit)), ..p1 };
    law_unused(rx_ring);
    assert(nth(rx_ring, used(rx_ring)) == rx_ring.slot(rx_ring.next_to_use as int));
    let rx_actions = configure_rx_actions(rx_ring.dma_addr, registers.3);
    assert(rx_actions + seq![] =~= rx_actions);
    lemma_run_one(p1, a);
    assert(p1.next(a).1 == Step::<OnNewRings<Open>, Ring>::Wait(p2));
    lemma_run_push(p1, seq![a], b);
    assert(p2.next(b).1 == Step::<OnNewRings<Open>, Ring>::Wait(p3));
    lemma_run_push(p1, seq![a].push(b), c);
    assert(p3.next(c).1 == Step::<OnNewRings<Open>, Ring>::Wait(p4));
    lemma_run_push(p1, seq![a].push(b).push(c), d);
    assert(seq![a].push(b).push(c).push(d) =~= seq![a, b, c, d]);
}

/// The receive buffers are posted.
proof fn lemma_buffers_part(
    netdev: NetDevice,
    tx_ring: Ring,
    rx_ring: Ring,
    buffers: Seq<RxBuffer>,
)
    requires
        consistent(rx_ring),
        1 <= buffers.len() <= unused(rx_ring),
        mapped(buffers),
    ensures
        ({
            let alloc = AllocRxBuffers {
                i: rx_ring.next_to_use as usize,
                left: buffers.len() as u16,
            };
            let start = OnNewRings {
                procedure: Open::Units(configure(netdev).at(ConfigurePhase::Buffers(alloc))),
                tx_ring,
                rx_ring,
            };
            let replies = buffers.map_values(|buffer: RxBuffer| Reply::RxBuffer(buffer));
            &&& run(start, replies) == (
                buffers_record(rx_ring, buffers),
                Step::<OnNewRings<Open>, Ring>::Done(filled(rx_ring, buffers)),
            )
            &&& run(start, replies.drop_last()).1 is Wait
        }),
{
    let alloc = AllocRxBuffers { i: rx_ring.next_to_use as usize, left: buffers.len() as u16 };
    let f = |x: OnRing<AllocRxBuffers>|
        OnNewRings {
            procedure: Open::Units(configure(netdev).at(ConfigurePhase::Buffers(x.procedure))),
            tx_ring,
            rx_ring: x.ring,
        };
    let q = |length: u32| Request::RxBuffer { length };
    let g = |buffer: RxBuffer| Reply::RxBuffer(buffer);
    let a = OnRing { procedure: alloc, ring: rx_ring };
    law_alloc_rx_buffers(rx_ring, buffers);
    let last = lemma_run_last(a, buffers);
    assert(last.next(buffers.last()).0 + seq![] =~= last.next(buffers.last()).0);
    lemma_run_to_end(a, f, q, g, buffers, last, seq![]);
    assert(buffers_record(rx_ring, buffers) + did(seq![]) =~= buffers_record(rx_ring, buffers));
}

/// The set-up, part by part.
proof fn lemma_open_parts(
    netdev: NetDevice,
    tx_ring: Ring,
    rx_ring: Ring,
    levels: (u32, u32, u32),
    samples: Seq<u32>,
    mdic: u32,
    registers: (u32, u32, u32, u32),
    buffers: Seq<RxBuffer>,
)
    requires
        netdev.plain_filter(),
        netdev.mtu <= ETH_DATA_LEN,
        consistent(rx_ring),
        samples.len() == 16,
        mdic & E1000_MDIC_READY != 0,
        1 <= buffers.len() == unused(rx_ring),
        mapped(buffers),
    ensures
        run(
            OnNewRings { procedure: open_device(netdev), tx_ring, rx_ring },
            open_answers(levels, samples, mdic, registers, buffers),
        ) == (
            open_record(
                netdev,
                tx_ring,
                rx_ring,
                levels,
                samples,
                mdic,
                registers,
                buffers,
            ),
            Step::<OnNewRings<Open>, Ring>::Done(filled(rx_ring, buffers)),
        ),
        run(
            OnNewRings { procedure: open_device(netdev), tx_ring, rx_ring },
            open_answers(levels, samples, mdic, registers, buffers).drop_last(),
        ).1 is Wait,
{
    let start = OnNewRings { procedure: open_device(netdev), tx_ring, rx_ring };
    let alloc = AllocRxBuffers { i: rx_ring.next_to_use as usize, left: unused(rx_ring) as u16 };
    let p = OnNewRings { procedure: Open::Units(configure(netdev)), tx_ring, rx_ring };
    let q = OnNewRings {
        procedure: Open::Units(configure(netdev).at(ConfigurePhase::Buffers(alloc))),
        tx_ring,
        rx_ring,
    };
    let r1 = (seq![levels.0, levels.1, levels.2] + samples).push(mdic).map_values(
        |value: u32| Reply::Register(value),
    );
    let r2 = seq![
        Reply::Register(registers.0),
        Reply::Register(registers.1),
        Reply::Register(registers.2),
        Reply::Register(registers.3),
    ];
    let r3 = buffers.map_values(|buffer: RxBuffer| Reply::RxBuffer(buffer));
    let phy = phy_record(levels, samples, mdic);
    let units = units_record(netdev, tx_ring.dma_addr, rx_ring.dma_addr, registers);
    lemma_phy_part(netdev, tx_ring, rx_ring, levels, samples, mdic);
    lemma_units_part(netdev, tx_ring, rx_ring, registers);
    lemma_buffers_part(netdev, tx_ring, rx_ring, buffers);
    lemma_run_join(start, r1, phy, p, r2);
    lemma_run_join(start, r1 + r2, phy + units, q, r3);
    lemma_run_join(start, r1 + r2, phy + units, q, r3.drop_last());
    lemma_all_but_last(r1 + r2, r3);
}

/// All but the last of two sequences, the second of which is not empty.
proof fn lemma_all_but_last<T>(a: Seq<T>, b: Seq<T>)
    requires
        b.len() > 0,
    ensures
        (a + b).drop_last() == a + b.drop_last(),
        (a + b).last() == b.last(),
{
    assert((a + b).drop_last() =~= a + b.drop_last());
}

/// Setting up a device that the driver supports powers the PHY up, sets up the units, and posts a
/// receive buffer for every descriptor of the receive ring but the one that stays unused. At last
/// the adapter is told of the last descriptor filled.
pub proof fn law_open(
    netdev: NetDevice,
    tx_ring: Ring,
    rx_ring: Ring,
    levels: (u32, u32, u32),
    samples: Seq<u32>,
    mdic: u32,
    registers: (u32, u32, u32, u32),
    buffers: Seq<RxBuffer>,
)
    requires
        netdev.plain_filter(),
        netdev.mtu <= ETH_DATA_LEN,
        consistent(rx_ring),
        samples.len() == 16,
        mdic & E1000_MDIC_READY != 0,
        1 <= buffers.len() == unused(rx_ring),
        mapped(buffers),
    ensures
        run(
            OnNewRings { procedure: open_device(netdev), tx_ring, rx_ring },
            open_answers(levels, samples, mdic, registers, buffers),
        ) == (
            open_record(
                netdev,
                tx_ring,
                rx_ring,
                levels,
                samples,
                mdic,
                registers,
                buffers,
            ),
            Step::<OnNewRings<Open>, Ring>::Done(filled(rx_ring, buffers)),
        ),
        run(
            OnNewRings { procedure: open_device(netdev), tx_ring, rx_ring },
            open_answers(levels, samples, mdic, registers, buffers).drop_last(),
        ).1 is Wait,
        open_record(
            netdev,
            tx_ring,
            rx_ring,
            levels,
            samples,
            mdic,
            registers,
            buffers,
        ).last() == Event::<Request, Reply>::Did(
            reg_write(E1000_RDT, before(filled(rx_ring, buffers).next_to_use as int) as u32),
        ),
        filled(rx_ring, buffers).next_to_use == before(rx_ring.next_to_clean as int),
        consistent(filled(rx_ring, buffers)),
        unused(filled(rx_ring, buffers)) == 0,
        in_flight(filled(rx_ring, buffers)) == in_flight(rx_ring) + skbs_of(buffers),
{
    law_filled(rx_ring, buffers);
    law_unused(rx_ring);
    law_unused(filled(rx_ring, buffers));
    lemma_open_parts(netdev, tx_ring, rx_ring, levels, samples, mdic, registers, buffers);
    lemma_tail_last(rx_ring, buffers);
    lemma_all_but_last(
        phy_record(levels, samples, mdic) + units_record(
            netdev,
            tx_ring.dma_addr,
            rx_ring.dma_addr,
            registers,
        ),
        buffers_record(rx_ring, buffers),
    );
}

/// The posting of buffers ends with the adapter being told of the last descriptor filled.
proof fn lemma_tail_last(ring: Ring, buffers: Seq<RxBuffer>)
    requires
        ring.wf(),
        buffers.len() > 0,
    ensures
        post_record(ring, buffers).len() > 0,
        post_record(ring, buffers).last() == Event::<u32, RxBuffer>::Did(
            reg_write(E1000_RDT, before(filled(ring, buffers).next_to_use as int) as u32),
        ),
    decreases buffers.len(),
{
    let next = filled_one(ring, buffers[0]);
    let i = ring.next_to_use as int;
    assert(next.next_to_use == after(i) && before(after(i)) == i);
    if buffers.len() == 1 {
        assert(filled(next, buffers.drop_first()) == next);
    } else {
        lemma_tail_last(next, buffers.drop_first());
    }
}

/// Let the kernel poll, unmask interrupts, let packets come, fire a link status change interrupt,
/// and report the link as up.
pub open spec fn activate_actions() -> Seq<Action> {
    seq![Action::NapiEnable, Action::RegisterIrq] + irq_enable_actions() + seq![
        Action::StartQueue,
        reg_write(E1000_ICS, E1000_ICS_LSC),
        Action::CarrierOn,
    ]
}

/// Letting traffic through, once the rings are in place.
#[derive(Clone, Copy, PartialEq, Eq, Debug)]
pub enum Activate {
    /// The transmit unit is to be started.
    Tx,
    /// The receive unit is to be started.
    Rx,
}

impl Protocol for Activate {
    type Request = u32;

    type Reply = u32;

    type Result = i32;

    open spec fn asks(self) -> u32 {
        match self {
            Activate::Tx => E1000_TCTL,
            Activate::Rx => E1000_RCTL,
        }
    }

    open spec fn next(self, reply: u32) -> (Seq<Action>, Step<Activate, i32>) {
        match self {
            Activate::Tx => (
                seq![reg_write(E1000_TCTL, reply | E1000_TCTL_EN)],
                Step::Wait(Activate::Rx),
            ),
            Activate::Rx => (
                seq![
                    reg_write(E1000_RCTL, reply | E1000_RCTL_EN),
                    reg_write(E1000_ICS, E1000_ICS_RXDMT0),
                ],
                Step::Done(0),
            ),
        }
    }
}

impl E1000 {
    /// Begins to let traffic through.
    pub fn activate(re: &mut Resource) -> (activate: Activate)
        ensures
            final(re)@ == old(re)@ + activate_actions(),
            activate == Activate::Tx,
    {
        re.push(Action::NapiEnable);
        re.push(Action::RegisterIrq);
        E1000::irq_enable(re);
        re.push(Action::StartQueue);
        // Fire a link status change interrupt to start the watchdog.
        re.ew32(E1000_ICS, E1000_ICS_LSC);
        re.push(Action::CarrierOn);
        Activate::Tx
    }
}

impl Activate {
    /// The register to read next.
    pub fn register(&self) -> (reg: u32)
        ensures
            reg == self.asks(),
    {
        match self {
            Activate::Tx => E1000_TCTL,
            Activate::Rx => E1000_RCTL,
        }
    }

    /// Goes on with what the register held.
    pub fn step(self, reply: u32, re: &mut Resource) -> (step: Step<Activate, i32>)
        ensures
            final(re)@ == old(re)@ + self.next(reply).0,
            step == self.next(reply).1,
    {
        match self {
            Activate::Tx => {
                re.ew32(E1000_TCTL, reply | E1000_TCTL_EN);
                Step::Wait(Activate::Rx)
            },
            Activate::Rx => {
                re.ew32(E1000_RCTL, reply | E1000_RCTL_EN);
                re.ew32(E1000_ICS, E1000_ICS_RXDMT0);
                Step::Done(0)
            },
        }
    }
}

/// Bringing a device up, all of it: both units are set up, and only then is traffic let through.
#[derive(Clone, Copy, PartialEq, Eq, Debug)]
pub enum BringUp {
    /// The units are being set up.
    Open(Open),
    /// Traffic is being let through.
    Activate(Activate),
}

/// The whole of bringing a device up, about to begin.
pub open spec fn bring_up(netdev: NetDevice) -> BringUp {
    BringUp::Open(open_device(netdev))
}

impl BringUp {
    /// A descriptor is to be filled, if buffers are being posted.
    pub open spec fn wf(self) -> bool {
        self matches BringUp::Open(open) ==> open.wf()
    }

    /// The question that is open.
    pub open spec fn asks(self) -> Request {
        match self {
            BringUp::Open(open) => open.asks(),
            BringUp::Activate(activate) => Request::Register(activate.asks()),
        }
    }

    /// What an answer leads to: the actions queued, the receive ring, and where the procedure
    /// stands. Traffic is let through when the units are set up, not before. An answer to another
    /// question leads to nothing.
    pub open spec fn advance(self, tx_ring: Ring, rx_ring: Ring, reply: Reply) -> (
        Seq<Action>,
        Ring,
        Step<BringUp, i32>,
    ) {
        match (self, reply) {
            (BringUp::Open(open), reply) => {
                let (actions, rx_ring, step) = open.advance(tx_ring, rx_ring, reply);
                match step {
                    Step::Wait(open) => (actions, rx_ring, Step::Wait(BringUp::Open(open))),
                    Step::Done(_) => (
                        actions + activate_actions(),
                        rx_ring,
                        Step::Wait(BringUp::Activate(Activate::Tx)),
                    ),
                    Step::Fault(fault) => (actions, rx_ring, Step::Fault(fault)),
                }
            },
            (BringUp::Activate(activate), Reply::Register(value)) => (
                activate.next(value).0,
                rx_ring,
                match activate.next(value).1 {
                    Step::Wait(activate) => Step::Wait(BringUp::Activate(activate)),
                    Step::Done(code) => Step::Done(code),
                    Step::Fault(fault) => Step::Fault(fault),
                },
            ),
            _ => (seq![], rx_ring, Step::Wait(self)),
        }
    }
}

impl Protocol for OnNewRings<BringUp> {
    type Request = Request;

    type Reply = Reply;

    type Result = (i32, Ring);

    open spec fn asks(self) -> Request {
        self.procedure.asks()
    }

    open spec fn next(self, reply: Reply) -> (Seq<Action>, Step<OnNewRings<BringUp>, (i32, Ring)>) {
        let (actions, rx_ring, step) = self.procedure.advance(self.tx_ring, self.rx_ring, reply);
        (
            actions,
            match step {
                Step::Wait(procedure) => Step::Wait(OnNewRings { procedure, rx_ring, ..self }),
                Step::Done(code) => Step::Done((code, rx_ring)),
                Step::Fault(fault) => Step::Fault(fault),
            },
        )
    }
}

impl E1000 {
    /// Begins the whole of bringing a device up.
    pub fn bring_up(netdev: &NetDevice) -> (start: BringUp)
        ensures
            start == bring_up(*netdev),
            start.wf(),
    {
        BringUp::Open(E1000::open(netdev))
    }
}

impl BringUp {
    /// The question that is open.
    pub fn request(&self) -> (request: Request)
        ensures
            request == self.asks(),
    {
        match self {
            BringUp::Open(open) => open.request(),
            BringUp::Activate(activate) => Request::Register(activate.register()),
        }
    }

    /// Goes on with an answer.
    pub fn step(
        self,
        tx_ring: &Ring,
        rx_ring: &mut Ring,
        reply: Reply,
        re: &mut Resource,
    ) -> (step: Step<BringUp, i32>)
        requires
            self.wf(),
            old(rx_ring).wf(),
        ensures
            final(re)@ == old(re)@ + self.advance(*tx_ring, *old(rx_ring), reply).0,
            *final(rx_ring) == self.advance(*tx_ring, *old(rx_ring), reply).1,
            step == self.advance(*tx_ring, *old(rx_ring), reply).2,
            step matches Step::Wait(m) ==> m.wf(),
            final(rx_ring).wf(),
    {
        let ghost start = re@;
        let ghost next = self.advance(*tx_ring, *rx_ring, reply);
        match (self, reply) {
            (BringUp::Open(open), reply) => match open.step(tx_ring, rx_ring, reply, re) {
                Step::Wait(open) => Step::Wait(BringUp::Open(open)),
                Step::Done(_) => {
                    let activate = E1000::activate(re);
                    assert(re@ =~= start + next.0);
                    Step::Wait(BringUp::Activate(activate))
                },
                Step::Fault(fault) => Step::Fault(fault),
            },
            (BringUp::Activate(activate), Reply::Register(value)) => {
                match activate.step(value, re) {
                    Step::Wait(activate) => Step::Wait(BringUp::Activate(activate)),
                    Step::Done(code) => Step::Done(code),
                    Step::Fault(fault) => Step::Fault(fault),
                }
            },
            _ => {
                assert(re@ =~= start + next.0);
                Step::Wait(self)
            },
        }
    }
}

/// The record of starting the transmit unit, which held `tctl`, and the receive unit, which held
/// `rctl`, and of the interrupt that asks for receive buffers at the end.
pub open spec fn start_record(tctl: u32, rctl: u32) -> Seq<Event<Request, Reply>> {
    seq![
        Event::Heard(Request::Register(E1000_TCTL), Reply::Register(tctl)),
        Event::Did(reg_write(E1000_TCTL, tctl | E1000_TCTL_EN)),
        Event::Heard(Request::Register(E1000_RCTL), Reply::Register(rctl)),
        Event::Did(reg_write(E1000_RCTL, rctl | E1000_RCTL_EN)),
        Event::Did(reg_write(E1000_ICS, E1000_ICS_RXDMT0)),
    ]
}

/// The activation alone.
proof fn lemma_activated(tx_ring: Ring, rx_ring: Ring, tctl: u32, rctl: u32)
    ensures
        run(
            OnNewRings { procedure: BringUp::Activate(Activate::Tx), tx_ring, rx_ring },
            seq![Reply::Register(tctl), Reply::Register(rctl)],
        ) == (
            start_record(tctl, rctl),
            Step::<OnNewRings<BringUp>, (i32, Ring)>::Done((0, rx_ring)),
        ),
{
    let p = OnNewRings { procedure: BringUp::Activate(Activate::Tx), tx_ring, rx_ring };
    let q = OnNewRings { procedure: BringUp::Activate(Activate::Rx), tx_ring, rx_ring };
    let (t, r) = (Reply::Register(tctl), Reply::Register(rctl));
    lemma_run_one(p, t);
    lemma_run_append(p, seq![t], seq![r]);
    lemma_run_one(q, r);
    assert(seq![t] + seq![r] =~= seq![t, r]);
    assert(turn(p, t) + turn(q, r) =~= start_record(tctl, rctl));
}

/// The last answer of the set-up leads on to the activation.
proof fn lemma_over_to_activation(p: OnNewRings<Open>, reply: Reply)
    requires
        p.next(reply).1 is Done,
    ensures
        ({
            let larger = OnNewRings {
                procedure: BringUp::Open(p.procedure),
                tx_ring: p.tx_ring,
                rx_ring: p.rx_ring,
            };
            run(larger, seq![reply]) == (
                turn(p, reply) + did(activate_actions()),
                Step::<OnNewRings<BringUp>, (i32, Ring)>::Wait(
                    OnNewRings {
                        procedure: BringUp::Activate(Activate::Tx),
                        tx_ring: p.tx_ring,
                        rx_ring: p.next(reply).1->Done_0,
                    },
                ),
            )
        }),
{
    let larger = OnNewRings {
        procedure: BringUp::Open(p.procedure),
        tx_ring: p.tx_ring,
        rx_ring: p.rx_ring,
    };
    lemma_run_one(larger, reply);
    assert(larger.next(reply).0 == p.next(reply).0 + activate_actions());
    assert(turn(larger, reply) =~= turn(p, reply) + did(activate_actions()));
}

/// Whatever answers it takes to set up the units: all that is done for it is done before traffic is
/// let through, which then goes on step by step and ends with success.
pub proof fn law_set_up_first(
    open: Open,
    tx_ring: Ring,
    rx_ring: Ring,
    answers: Seq<Reply>,
    tctl: u32,
    rctl: u32,
)
    requires
        answers.len() > 0,
        run(OnNewRings { procedure: open, tx_ring, rx_ring }, answers.drop_last()).1 is Wait,
        run(OnNewRings { procedure: open, tx_ring, rx_ring }, answers).1 is Done,
    ensures
        ({
            let set_up = run(OnNewRings { procedure: open, tx_ring, rx_ring }, answers);
            run(
                OnNewRings { procedure: BringUp::Open(open), tx_ring, rx_ring },
                answers + seq![Reply::Register(tctl), Reply::Register(rctl)],
            ) == (
                set_up.0 + did(activate_actions()) + start_record(tctl, rctl),
                Step::<OnNewRings<BringUp>, (i32, Ring)>::Done((0, set_up.1->Done_0)),
            )
        }),
{
    let set_up = OnNewRings { procedure: open, tx_ring, rx_ring };
    let f = |x: OnNewRings<Open>|
        OnNewRings {
            procedure: BringUp::Open(x.procedure),
            tx_ring: x.tx_ring,
            rx_ring: x.rx_ring,
        };
    let (init, last) = (answers.drop_last(), answers.last());
    assert(init + seq![last] =~= answers);
    let b = run(set_up, init).1->Wait_0;
    lemma_run_append(set_up, init, seq![last]);
    lemma_run_one(b, last);
    lemma_same_tx_ring(set_up, init);
    let start = f(set_up);
    lemma_run_inside(set_up, f, init);
    lemma_run_append(start, init, seq![last]);
    lemma_over_to_activation(b, last);
    assert(f(b) == OnNewRings {
        procedure: BringUp::Open(b.procedure),
        tx_ring: b.tx_ring,
        rx_ring: b.rx_ring,
    });
    assert(run(start, answers).0 =~= run(set_up, answers).0 + did(activate_actions()));
    lemma_run_append(start, answers, seq![Reply::Register(tctl), Reply::Register(rctl)]);
    lemma_activated(tx_ring, run(set_up, answers).1->Done_0, tctl, rctl);
}

/// Bringing up a device that the driver supports succeeds. It posts a receive buffer for every
/// descriptor of the receive ring but the one that stays unused, tells the adapter of the last one,
/// and only then lets traffic through. On a new ring the last one is descriptor 126.
pub proof fn law_bring_up(
    netdev: NetDevice,
    tx_ring: Ring,
    rx_ring: Ring,
    levels: (u32, u32, u32),
    samples: Seq<u32>,
    mdic: u32,
    registers: (u32, u32, u32, u32),
    buffers: Seq<RxBuffer>,
    tctl: u32,
    rctl: u32,
)
    requires
        netdev.plain_filter(),
        netdev.mtu <= ETH_DATA_LEN,
        consistent(rx_ring),
        samples.len() == 16,
        mdic & E1000_MDIC_READY != 0,
        1 <= buffers.len() == unused(rx_ring),
        mapped(buffers),
    ensures
        ({
            let set_up = open_record(
                netdev,
                tx_ring,
                rx_ring,
                levels,
                samples,
                mdic,
                registers,
                buffers,
            );
            let last = before(filled(rx_ring, buffers).next_to_use as int);
            &&& run(
                OnNewRings { procedure: bring_up(netdev), tx_ring, rx_ring },
                open_answers(levels, samples, mdic, registers, buffers) + seq![
                    Reply::Register(tctl),
                    Reply::Register(rctl),
                ],
            ) == (
                set_up + did(activate_actions()) + start_record(tctl, rctl),
                Step::<OnNewRings<BringUp>, (i32, Ring)>::Done((0, filled(rx_ring, buffers))),
            )
            &&& set_up.last() == Event::<Request, Reply>::Did(reg_write(E1000_RDT, last as u32))
            &&& rx_ring.next_to_clean == 0 ==> last == 126
        }),
        unused(filled(rx_ring, buffers)) == 0,
{
    law_open(netdev, tx_ring, rx_ring, levels, samples, mdic, registers, buffers);
    let answers = open_answers(levels, samples, mdic, registers, buffers);
    law_set_up_first(open_device(netdev), tx_ring, rx_ring, answers, tctl, rctl);
}

/// Setting up the units leaves the transmit ring alone.
proof fn lemma_same_tx_ring(p: OnNewRings<Open>, replies: Seq<Reply>)
    ensures
        run(p, replies).1 matches Step::Wait(q) ==> q.tx_ring == p.tx_ring,
    decreases replies.len(),
{
    if replies.len() > 0 {
        if let Step::Wait(q) = p.next(replies[0]).1 {
            lemma_same_tx_ring(q, replies.drop_first());
        }
    }
}

/// Starting a unit sets the enable bit of its control register and changes nothing else. When both
/// are started, an interrupt for a lack of receive buffers is raised. No other register is written.
pub proof fn law_units_started<Q, R>(held: u32, reg: u32)
    ensures
        ({
            let (actions, step) = Activate::Tx.next(held);
            let record = did::<Q, R>(actions);
            &&& last_written(record, 0x400) matches Some(value)
            &&& value & 2 != 0
            &&& value | 2 == held | 2
            &&& reg != 0x400 ==> last_written(record, reg) is None
            &&& actions.len() == 1
            &&& Activate::Tx.asks() == 0x400
            &&& step == Step::<Activate, i32>::Wait(Activate::Rx)
        }),
        ({
            let (actions, step) = Activate::Rx.next(held);
            let record = did::<Q, R>(actions);
            &&& last_written(record, 0x100) matches Some(value)
            &&& value & 2 != 0
            &&& value | 2 == held | 2
            &&& last_written(record, 0xC8) == Some(0x10u32)
            &&& actions.len() == 2
            &&& actions[1] == (Action::Write { offset: 0xC8, value: 0x10 })
            &&& Activate::Rx.asks() == 0x100
            &&& reg != 0x100 && reg != 0xC8 ==> last_written(record, reg) is None
            &&& step == Step::<Activate, i32>::Done(0)
        }),
{
    lemma_set_clear(held, 2, 0);
    let tx = did::<Q, R>(Activate::Tx.next(held).0);
    let rx = did::<Q, R>(Activate::Rx.next(held).0);
    lemma_last_at(tx, 0x400, 0);
    lemma_last_at(rx, 0x100, 0);
    lemma_last_at(rx, 0xC8, 1);
    if reg != 0x400 {
        lemma_not_written(tx, reg);
    }
    if reg != 0x100 && reg != 0xC8 {
        lemma_not_written(rx, reg);
    }
}

/// Letting traffic through unmasks the interrupts that the driver handles, raises one for a link
/// change, lets packets come and reports the link as up. No other register is written.
pub proof fn law_traffic_let_through<Q, R>(reg: u32)
    ensures
        last_written(did::<Q, R>(activate_actions()), reg) == if reg == 0xD0 {
            Some((0x80 + 0x01 + 0x10 + 0x08 + 0x04) as u32)
        } else if reg == 0xC8 {
            Some(4u32)
        } else {
            None
        },
        activate_actions() == seq![
            Action::NapiEnable,
            Action::RegisterIrq,
            Action::Write { offset: 0xD0, value: 0x9D },
            Action::Read { offset: 8 },
            Action::StartQueue,
            Action::Write { offset: 0xC8, value: 4 },
            Action::CarrierOn,
        ],
{
    let actions = activate_actions();
    let record = did::<Q, R>(actions);
    if reg == 0xD0 {
        lemma_last_at(record, reg, 2);
    } else if reg == 0xC8 {
        lemma_last_at(record, reg, 5);
    } else {
        lemma_not_written(record, reg);
    }
}

/// A transfer unit of more than 1500 bytes is a fault when the receive control register is to be
/// set, and a shorter one never is.
pub proof fn law_transfer_unit(netdev: NetDevice, tx_ring: Ring, rx_ring: Ring, rctl: u32)
    ensures
        ({
            let configure = Configure { netdev, phase: ConfigurePhase::Rctl };
            let (actions, ring, step) = configure.advance(tx_ring, rx_ring, Reply::Register(rctl));
            &&& netdev.mtu > 1500 ==> actions == Seq::<Action>::empty() && step == Step::<
                Configure,
                (),
            >::Fault(Fault::MtuTooLong)
            &&& netdev.mtu <= 1500 ==> step is Wait
            &&& ring == rx_ring
        }),
{
}

/// The set-up of a device meets a fault when its part at hand does, and it is the same fault.
pub proof fn law_set_up_fault(
    netdev: NetDevice,
    tx_ring: Ring,
    rx_ring: Ring,
    value: u32,
    buffer: RxBuffer,
    power_up: PowerUpPhy,
    mode: SetRxMode,
    alloc: AllocRxBuffers,
    fault: Fault,
)
    ensures
        power_up.next(value).1 == Step::<PowerUpPhy, ()>::Fault(fault) ==> (Open::PowerUp {
            netdev,
            power_up,
        }).advance(tx_ring, rx_ring, Reply::Register(value)).2 == Step::<Open, ()>::Fault(fault),
        mode.next(value).1 == Step::<SetRxMode, ()>::Fault(fault) ==> Open::Units(
            Configure { netdev, phase: ConfigurePhase::RxMode(mode) },
        ).advance(tx_ring, rx_ring, Reply::Register(value)).2 == Step::<Open, ()>::Fault(fault),
        alloc.advance(rx_ring, buffer).2 == Step::<AllocRxBuffers, ()>::Fault(fault)
            ==> Open::Units(
            Configure { netdev, phase: ConfigurePhase::Buffers(alloc) },
        ).advance(tx_ring, rx_ring, Reply::RxBuffer(buffer)).2 == Step::<Open, ()>::Fault(fault),
{
}

/// The set-up of the units asks for the receive control register, or the transmit control register
/// when that is to be set, or for a buffer of 2048 bytes. An answer of another kind changes
/// nothing.
pub proof fn law_set_up_asks(configure: Configure, tx_ring: Ring, rx_ring: Ring, reply: Reply)
    ensures
        configure.asks() == match configure.phase {
            ConfigurePhase::Tctl => Request::Register(0x400),
            ConfigurePhase::Buffers(_) => Request::RxBuffer { length: 2048 },
            _ => Request::Register(0x100),
        },
        (if configure.phase is Buffers {
            !(reply is RxBuffer)
        } else {
            !(reply is Register)
        }) ==> configure.advance(tx_ring, rx_ring, reply) == (
            Seq::<Action>::empty(),
            rx_ring,
            Step::<Configure, ()>::Wait(configure),
        ),
{
}

/// The set-up goes from one part to the next: the receive mode and then the transmit unit, which
/// gets the address of the transmit ring; transmit control; receive control; the receive unit,
/// which gets the address of the receive ring. Then buffers are posted, as many as there are
/// descriptors to be handed out.
pub proof fn law_set_up_parts(netdev: NetDevice, tx_ring: Ring, rx_ring: Ring, value: u32)
    requires
        rx_ring.wf(),
    ensures
        ({
            let mode = SetRxMode { netdev };
            let (actions, ring, step) = configure(netdev).advance(
                tx_ring,
                rx_ring,
                Reply::Register(value),
            );
            &&& ring == rx_ring
            &&& mode.next(value).1 is Done ==> {
                &&& actions == mode.next(value).0 + configure_tx_actions(tx_ring.dma_addr)
                &&& step == Step::<Configure, ()>::Wait(
                    Configure { netdev, phase: ConfigurePhase::Tctl },
                )
            }
        }),
        ({
            let (actions, ring, step) = (Configure {
                netdev,
                phase: ConfigurePhase::Tctl,
            }).advance(tx_ring, rx_ring, Reply::Register(value));
            &&& ring == rx_ring
            &&& actions == seq![Action::Write { offset: 0x400, value: tx_control(value) }]
            &&& step == Step::<Configure, ()>::Wait(
                Configure { netdev, phase: ConfigurePhase::Rctl },
            )
        }),
        netdev.mtu <= 1500 ==> ({
            let (actions, ring, step) = (Configure {
                netdev,
                phase: ConfigurePhase::Rctl,
            }).advance(tx_ring, rx_ring, Reply::Register(value));
            &&& ring == rx_ring
            &&& actions == seq![Action::Write { offset: 0x100, value: rx_control(value) }]
            &&& step == Step::<Configure, ()>::Wait(
                Configure { netdev, phase: ConfigurePhase::RxUnit },
            )
        }),
        ({
            let left = 127 - used(rx_ring);
            let (actions, ring, step) = (Configure {
                netdev,
                phase: ConfigurePhase::RxUnit,
            }).advance(tx_ring, rx_ring, Reply::Register(value));
            &&& ring == rx_ring
            &&& actions == configure_rx_actions(rx_ring.dma_addr, value)
            &&& left == 0 ==> step == Step::<Configure, ()>::Done(())
            &&& left > 0 && rx_ring.slot(rx_ring.next_to_use as int).skb is None ==> {
                &&& step matches Step::Wait(next)
                &&& next.netdev == netdev
                &&& next.phase matches ConfigurePhase::Buffers(alloc)
                &&& alloc.i == rx_ring.next_to_use
                &&& alloc.left == left
            }
        }),
{
    law_unused(rx_ring);
    let actions = configure_rx_actions(rx_ring.dma_addr, value);
    assert(actions + seq![] =~= actions);
}

/// The PHY is powered up first, and only then are the units set up. What is set up in one part of
/// bringing a device up is passed on by the whole as it is.
pub proof fn law_open_parts(
    netdev: NetDevice,
    power_up: PowerUpPhy,
    units: Configure,
    tx_ring: Ring,
    rx_ring: Ring,
    reply: Reply,
)
    ensures
        ({
            let open = Open::PowerUp { netdev, power_up };
            let (actions, ring, step) = open.advance(tx_ring, rx_ring, reply);
            &&& ring == rx_ring
            &&& open.asks() == Request::Register(power_up.asks())
            &&& reply matches Reply::Register(value) ==> {
                &&& actions == power_up.next(value).0
                &&& power_up.next(value).1 matches Step::Wait(next) ==> step == Step::<
                    Open,
                    (),
                >::Wait(Open::PowerUp { netdev, power_up: next })
                &&& power_up.next(value).1 is Done ==> step == Step::<Open, ()>::Wait(
                    Open::Units(configure(netdev)),
                )
            }
            &&& !(reply is Register) ==> actions == Seq::<Action>::empty() && step == Step::<
                Open,
                (),
            >::Wait(open)
        }),
        ({
            let part = units.advance(tx_ring, rx_ring, reply);
            let (actions, ring, step) = Open::Units(units).advance(tx_ring, rx_ring, reply);
            &&& Open::Units(units).asks() == units.asks()
            &&& actions == part.0
            &&& ring == part.1
            &&& part.2 matches Step::Wait(next) ==> step == Step::<Open, ()>::Wait(
                Open::Units(next),
            )
            &&& part.2 is Done ==> step == Step::<Open, ()>::Done(())
        }),
{
}

} // verus!
