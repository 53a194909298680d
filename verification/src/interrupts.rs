//! When the adapter may interrupt: not before both rings are set up and a handler is in place.

use vstd::prelude::*;
use crate::bits::bit_of;
use crate::control::{configure_rx_actions, configure_tx_actions};
use crate::defs::{
    E1000_EECD_DO, E1000_EECD_SK, E1000_IMS, E1000_MC_TBL_SIZE, E1000_NUM_MTA_REGISTERS,
    E1000_RAR_ENTRIES, EEPROM_READ_OPCODE_MICROWIRE, PHY_PREAMBLE, PHY_PREAMBLE_SIZE,
};
use crate::eeprom::read::ReadEeprom;
use crate::eeprom::wires::{clock_out, hold, with_di};
use crate::filter::{
    NetDevice, SetRxMode, clear_address, clear_addresses, clear_shifted_table, clear_table,
    rar_set_actions,
};
use crate::open::{BringUp, ConfigurePhase, OnNewRings, Open, activate_actions, bring_up};
use crate::phy::{
    PowerUpPhy, mdi_clock_out, mdi_driven, mdi_hold, mdi_pulse, phy_read_command, with_mdio,
};
use crate::probe::{Probe, ProbeReply, netdev_actions};
use crate::protocol::{Action, Event, Protocol, Reply, Request, Step, did, run, turn};
use crate::receive::{fill, posted};
use crate::reset::{Reset, init_hw_actions, reset_actions};
use crate::ring::{Ring, after, unused};

verus! {

/// The action lets the adapter interrupt.
pub open spec fn unmasks(action: Action) -> bool {
    action matches Action::Write { offset, value } && offset == E1000_IMS
}

/// None of the actions lets the adapter interrupt.
pub open spec fn masked(actions: Seq<Action>) -> bool {
    forall|i: int| 0 <= i < actions.len() ==> !unmasks(#[trigger] actions[i])
}

/// The action lets the kernel poll, registers the handler or lets the adapter interrupt.
pub open spec fn activates(action: Action) -> bool {
    action is NapiEnable || action is RegisterIrq || unmasks(action)
}

/// None of the actions is one that activates.
pub open spec fn quiet(actions: Seq<Action>) -> bool {
    forall|i: int| 0 <= i < actions.len() ==> !activates(#[trigger] actions[i])
}

/// Actions one after the other.
proof fn lemma_quiet_append(a: Seq<Action>, b: Seq<Action>)
    requires
        quiet(a),
        quiet(b),
    ensures
        quiet(a + b),
{
    assert forall|i: int| 0 <= i < (a + b).len() implies !activates(#[trigger] (a + b)[i]) by {
        if i < a.len() {
            assert((a + b)[i] == a[i]);
        } else {
            assert((a + b)[i] == b[i - a.len()]);
        }
    }
}

/// Bits on their way to the PHY.
proof fn lemma_mdi_quiet(ctrl: u32, data: u32, n: nat)
    ensures
        quiet(mdi_clock_out(ctrl, data, n)),
    decreases n,
{
    if n > 0 {
        let level = with_mdio(ctrl, bit_of(data, n - 1));
        lemma_mdi_quiet(level, data, (n - 1) as nat);
        lemma_quiet_append(
            mdi_hold(level) + mdi_pulse(level),
            mdi_clock_out(level, data, (n - 1) as nat),
        );
    }
}

/// Bits on their way to the EEPROM.
proof fn lemma_ee_quiet(eecd: u32, delay_usec: u16, data: u16, n: nat)
    ensures
        quiet(clock_out(eecd, delay_usec, data, n)),
    decreases n,
{
    if n > 0 {
        let low = with_di(eecd, bit_of(data as u32, n - 1));
        let high = low | E1000_EECD_SK;
        let back = high & !E1000_EECD_SK;
        lemma_ee_quiet(back, delay_usec, data, (n - 1) as nat);
        lemma_quiet_append(
            hold(low, delay_usec) + hold(high, delay_usec) + hold(back, delay_usec),
            clock_out(back, delay_usec, data, (n - 1) as nat),
        );
    }
}

/// The address filters.
proof fn lemma_addresses_quiet(n: int)
    requires
        n <= E1000_RAR_ENTRIES,
    ensures
        quiet(clear_addresses(n)),
    decreases n,
{
    if n > 1 {
        lemma_addresses_quiet(n - 1);
        lemma_quiet_append(clear_addresses(n - 1), clear_address(n - 1));
    }
}

/// The registers at four times the multicast table's offset.
proof fn lemma_shifted_table_quiet(n: int)
    requires
        n <= E1000_NUM_MTA_REGISTERS,
    ensures
        quiet(clear_shifted_table(n)),
    decreases n,
{
    if n > 0 {
        lemma_shifted_table_quiet(n - 1);
        lemma_quiet_append(
            clear_shifted_table(n).take(1),
            clear_shifted_table(n - 1),
        );
        assert(clear_shifted_table(n) =~= clear_shifted_table(n).take(1) + clear_shifted_table(
            n - 1,
        ));
    }
}

/// The multicast table.
proof fn lemma_table_quiet(n: int)
    requires
        n <= E1000_MC_TBL_SIZE,
    ensures
        quiet(clear_table(n)),
    decreases n,
{
    if n > 0 {
        lemma_table_quiet(n - 1);
    }
}

/// The receive mode.
proof fn lemma_rx_mode_quiet(mode: SetRxMode, rctl: u32)
    ensures
        quiet(mode.next(rctl).0),
{
    lemma_addresses_quiet(E1000_RAR_ENTRIES as int);
    lemma_shifted_table_quiet(E1000_NUM_MTA_REGISTERS as int);
}

/// The PHY.
proof fn lemma_power_up_quiet(power_up: PowerUpPhy, reply: u32)
    ensures
        quiet(power_up.next(reply).0),
{
    if let PowerUpPhy::Read(read) = power_up {
        lemma_mdi_quiet(mdi_driven(reply), PHY_PREAMBLE, PHY_PREAMBLE_SIZE as nat);
        lemma_mdi_quiet(mdi_driven(reply), phy_read_command(read.reg_addr), 14);
        assert(quiet(read.next(reply).0));
    }
}

/// Setting up both units.
proof fn lemma_open_quiet(open: Open, tx_ring: Ring, rx_ring: Ring, reply: Reply)
    ensures
        quiet(open.advance(tx_ring, rx_ring, reply).0),
{
    match (open, reply) {
        (Open::PowerUp { netdev, power_up }, Reply::Register(value)) => {
            lemma_power_up_quiet(power_up, value);
        },
        (Open::Units(configure), reply) => match (configure.phase, reply) {
            (ConfigurePhase::RxMode(mode), Reply::Register(rctl)) => {
                lemma_rx_mode_quiet(mode, rctl);
                lemma_quiet_append(mode.next(rctl).0, configure_tx_actions(tx_ring.dma_addr));
            },
            (ConfigurePhase::RxUnit, Reply::Register(rctl)) => {
                let more = fill(rx_ring, rx_ring.next_to_use as int, unused(rx_ring) as u16).0;
                lemma_quiet_append(configure_rx_actions(rx_ring.dma_addr, rctl), more);
            },
            (ConfigurePhase::Buffers(alloc), Reply::RxBuffer(buffer)) => {
                lemma_quiet_append(
                    seq![Action::PostRxDesc { slot: alloc.i, addr: buffer.dma }],
                    fill(
                        posted(rx_ring, alloc.i as int, buffer),
                        after(alloc.i as int),
                        (alloc.left - 1) as u16,
                    ).0,
                );
            },
            _ => {},
        },
        _ => {},
    }
}

/// No answer of the device lets the adapter interrupt while its units are set up.
pub proof fn law_open_masked(open: Open, tx_ring: Ring, rx_ring: Ring, reply: Reply)
    ensures
        masked(open.advance(tx_ring, rx_ring, reply).0),
{
    lemma_open_quiet(open, tx_ring, rx_ring, reply);
    let actions = open.advance(tx_ring, rx_ring, reply).0;
    assert forall|i: int| 0 <= i < actions.len() implies !unmasks(#[trigger] actions[i]) by {
        assert(!activates(actions[i]));
    }
}

/// A word of the EEPROM.
proof fn lemma_read_quiet(read: ReadEeprom, eecd: u32)
    ensures
        quiet(read.next(eecd).0),
{
    let eeprom = read.eeprom;
    lemma_ee_quiet(
        eecd & !E1000_EECD_DO,
        eeprom.delay_usec,
        EEPROM_READ_OPCODE_MICROWIRE as u16,
        eeprom.opcode_bits as nat,
    );
    lemma_ee_quiet(
        eecd & !E1000_EECD_DO,
        eeprom.delay_usec,
        read.offset,
        eeprom.address_bits as nat,
    );
}

/// The reset and the first values of the registers.
proof fn lemma_reset_quiet(reset: Reset, reply: u32)
    ensures
        quiet(reset.next(reply).0),
{
    if let Reset::Hw { mac_addr, reset } = reset {
        lemma_addresses_quiet(E1000_RAR_ENTRIES as int);
        lemma_table_quiet(E1000_MC_TBL_SIZE as int);
        assert((0u32 << 1) == 0 && (0u32 << 2) == 0 && (1u32 << 2) == 4) by (bit_vector);
        assert(quiet(rar_set_actions(mac_addr, 0)));
        lemma_quiet_append(
            rar_set_actions(mac_addr, 0),
            clear_addresses(E1000_RAR_ENTRIES as int),
        );
        assert(quiet(init_hw_actions(mac_addr)));
        lemma_quiet_append(reset.next(reply).0, init_hw_actions(mac_addr));
    }
}

/// No answer of the kernel or of the device lets the adapter interrupt while it is taken over.
pub proof fn law_probe_masked(probe: Probe, reply: ProbeReply)
    ensures
        masked(probe.next(reply).0),
{
    lemma_probe_quiet(probe, reply);
    let actions = probe.next(reply).0;
    assert forall|i: int| 0 <= i < actions.len() implies !unmasks(#[trigger] actions[i]) by {
        assert(!activates(actions[i]));
    }
}

/// Taking over.
proof fn lemma_probe_quiet(probe: Probe, reply: ProbeReply)
    ensures
        quiet(probe.next(reply).0),
{
    match (probe, reply) {
        (Probe::Validate { validate, .. }, ProbeReply::Register(value)) => {
            lemma_read_quiet(validate.read, value);
        },
        (Probe::ReadMac { read, .. }, ProbeReply::Register(value)) => {
            lemma_read_quiet(read.read, value);
            if let Step::Done(mac_addr) = read.next(value).1 {
                lemma_quiet_append(read.next(value).0, netdev_actions(mac_addr));
                lemma_quiet_append(
                    read.next(value).0 + netdev_actions(mac_addr),
                    reset_actions(),
                );
            }
        },
        (Probe::Reset { reset, .. }, ProbeReply::Register(value)) => {
            lemma_reset_quiet(reset, value);
        },
        _ => {},
    }
}

/// When traffic is let through, the adapter is let interrupt only after the kernel can poll it and
/// a handler is registered.
pub proof fn law_handler_first(i: int)
    requires
        0 <= i < activate_actions().len(),
        unmasks(activate_actions()[i]),
    ensures
        activate_actions().take(i).contains(Action::NapiEnable),
        activate_actions().take(i).contains(Action::RegisterIrq),
{
    let before = activate_actions().take(i);
    assert(before[0] == Action::NapiEnable);
    assert(before[1] == Action::RegisterIrq);
}

/// The actions `block` were performed one after the other in the course of `record`.
pub open spec fn shows(record: Seq<Event<Request, Reply>>, block: Seq<Action>) -> bool {
    exists|i: int|
        0 <= i <= record.len() - block.len() && #[trigger] record.subrange(
            i,
            i + block.len(),
        ) == did::<Request, Reply>(block)
}

/// In the course of `record` both units were told of their rings, whose descriptors are at
/// `tx_addr` and `rx_addr`.
pub open spec fn rings_set_up(
    record: Seq<Event<Request, Reply>>,
    tx_addr: u64,
    rx_addr: u64,
) -> bool {
    &&& shows(record, configure_tx_actions(tx_addr))
    &&& exists|rctl: u32| #[trigger] shows(record, configure_rx_actions(rx_addr, rctl))
}

/// Whatever activates comes after both rings were set up.
pub open spec fn activates_last(
    record: Seq<Event<Request, Reply>>,
    tx_addr: u64,
    rx_addr: u64,
) -> bool {
    forall|k: int|
        0 <= k < record.len() && (#[trigger] record[k] matches Event::Did(action) && activates(
            action,
        )) ==> rings_set_up(record.take(k), tx_addr, rx_addr)
}

/// What was performed stays so.
proof fn lemma_shows_append(
    record: Seq<Event<Request, Reply>>,
    more: Seq<Event<Request, Reply>>,
    block: Seq<Action>,
)
    requires
        shows(record, block),
    ensures
        shows(record + more, block),
{
    let i = choose|i: int|
        0 <= i <= record.len() - block.len() && #[trigger] record.subrange(i, i + block.len())
            == did::<Request, Reply>(block);
    assert((record + more).subrange(i, i + block.len()) =~= record.subrange(i, i + block.len()));
}

/// What is performed now was performed afterwards.
proof fn lemma_shows_here(
    record: Seq<Event<Request, Reply>>,
    first: Seq<Action>,
    block: Seq<Action>,
    last: Seq<Action>,
)
    ensures
        shows(record + did(first + block + last), block),
{
    let i = (record.len() + first.len()) as int;
    let all = record + did(first + block + last);
    assert(all.subrange(i, i + block.len()) =~= did::<Request, Reply>(block));
}

/// Rings that were set up stay so.
proof fn lemma_set_up_append(
    record: Seq<Event<Request, Reply>>,
    more: Seq<Event<Request, Reply>>,
    tx_addr: u64,
    rx_addr: u64,
)
    requires
        rings_set_up(record, tx_addr, rx_addr),
    ensures
        rings_set_up(record + more, tx_addr, rx_addr),
{
    let rctl = choose|rctl: u32| #[trigger] shows(record, configure_rx_actions(rx_addr, rctl));
    lemma_shows_append(record, more, configure_tx_actions(tx_addr));
    lemma_shows_append(record, more, configure_rx_actions(rx_addr, rctl));
}

/// What was done before the set-up of the units came to where it stands.
spec fn set_up_so_far(
    open: Open,
    record: Seq<Event<Request, Reply>>,
    tx_addr: u64,
    rx_addr: u64,
) -> bool {
    match open {
        Open::PowerUp { .. } => true,
        Open::Units(configure) => match configure.phase {
            ConfigurePhase::RxMode(_) => true,
            ConfigurePhase::Buffers(_) => rings_set_up(record, tx_addr, rx_addr),
            _ => shows(record, configure_tx_actions(tx_addr)),
        },
    }
}

/// One answer during the set-up of the units.
proof fn lemma_set_up_turn(
    open: Open,
    tx_ring: Ring,
    rx_ring: Ring,
    record: Seq<Event<Request, Reply>>,
    reply: Reply,
)
    requires
        set_up_so_far(open, record, tx_ring.dma_addr, rx_ring.dma_addr),
    ensures
        ({
            let (actions, ring, step) = open.advance(tx_ring, rx_ring, reply);
            let next = record.push(Event::Heard(open.asks(), reply)) + did(actions);
            &&& ring.dma_addr == rx_ring.dma_addr
            &&& step matches Step::Wait(m) ==> set_up_so_far(
                m,
                next,
                tx_ring.dma_addr,
                rx_ring.dma_addr,
            )
            &&& step is Done ==> rings_set_up(next, tx_ring.dma_addr, rx_ring.dma_addr)
        }),
{
    let (actions, ring, step) = open.advance(tx_ring, rx_ring, reply);
    let heard = record.push(Event::Heard(open.asks(), reply));
    let (tx_addr, rx_addr) = (tx_ring.dma_addr, rx_ring.dma_addr);
    let tx_actions = configure_tx_actions(tx_addr);
    assert(heard =~= record + seq![Event::Heard(open.asks(), reply)]);
    let more = seq![Event::Heard(open.asks(), reply)] + did(actions);
    assert(heard + did(actions) =~= record + more);
    if shows(record, tx_actions) {
        lemma_shows_append(record, more, tx_actions);
    }
    if rings_set_up(record, tx_addr, rx_addr) {
        lemma_set_up_append(record, more, tx_addr, rx_addr);
    }
    if let Open::Units(configure) = open {
        match (configure.phase, reply) {
            (ConfigurePhase::RxMode(mode), Reply::Register(rctl)) => {
                if mode.next(rctl).1 is Done {
                    lemma_shows_here(heard, mode.next(rctl).0, tx_actions, seq![]);
                    assert(mode.next(rctl).0 + tx_actions + seq![] =~= actions);
                }
            },
            (ConfigurePhase::RxUnit, Reply::Register(rctl)) => {
                let rx_actions = configure_rx_actions(rx_addr, rctl);
                let filled = fill(rx_ring, rx_ring.next_to_use as int, unused(rx_ring) as u16);
                lemma_shows_here(heard, seq![], rx_actions, filled.0);
                assert(seq![] + rx_actions + filled.0 =~= actions);
            },
            _ => {},
        }
    }
}

/// What was done before the bringing up came to where it stands.
spec fn brought_up_so_far(
    p: OnNewRings<BringUp>,
    record: Seq<Event<Request, Reply>>,
    tx_addr: u64,
    rx_addr: u64,
) -> bool {
    &&& p.tx_ring.dma_addr == tx_addr
    &&& p.rx_ring.dma_addr == rx_addr
    &&& activates_last(record, tx_addr, rx_addr)
    &&& match p.procedure {
        BringUp::Open(open) => set_up_so_far(open, record, tx_addr, rx_addr),
        BringUp::Activate(_) => rings_set_up(record, tx_addr, rx_addr),
    }
}

/// Anything may follow once both rings are set up.
proof fn lemma_anything_after(
    record: Seq<Event<Request, Reply>>,
    more: Seq<Event<Request, Reply>>,
    tx_addr: u64,
    rx_addr: u64,
)
    requires
        activates_last(record, tx_addr, rx_addr),
        rings_set_up(record, tx_addr, rx_addr),
    ensures
        activates_last(record + more, tx_addr, rx_addr),
{
    let all = record + more;
    assert forall|k: int|
        0 <= k < all.len() && (#[trigger] all[k] matches Event::Did(action) && activates(
            action,
        )) implies rings_set_up(all.take(k), tx_addr, rx_addr) by {
        if k < record.len() {
            assert(all[k] == record[k]);
            assert(all.take(k) =~= record.take(k));
        } else {
            assert(all.take(k) =~= record + more.take(k - record.len()));
            lemma_set_up_append(record, more.take(k - record.len()), tx_addr, rx_addr);
        }
    }
}

/// A question and quiet actions may follow at any time.
proof fn lemma_quiet_after(
    record: Seq<Event<Request, Reply>>,
    request: Request,
    reply: Reply,
    actions: Seq<Action>,
    tx_addr: u64,
    rx_addr: u64,
)
    requires
        activates_last(record, tx_addr, rx_addr),
        quiet(actions),
    ensures
        activates_last(
            record.push(Event::Heard(request, reply)) + did(actions),
            tx_addr,
            rx_addr,
        ),
{
    let all = record.push(Event::Heard(request, reply)) + did(actions);
    assert forall|k: int|
        0 <= k < all.len() && (#[trigger] all[k] matches Event::Did(action) && activates(
            action,
        )) implies rings_set_up(all.take(k), tx_addr, rx_addr) by {
        if k < record.len() {
            assert(all[k] == record[k]);
            assert(all.take(k) =~= record.take(k));
        } else if k > record.len() {
            assert(all[k] == Event::<Request, Reply>::Did(actions[k - record.len() - 1]));
        }
    }
}

/// One answer during the bringing up.
proof fn lemma_bring_up_turn(
    p: OnNewRings<BringUp>,
    record: Seq<Event<Request, Reply>>,
    reply: Reply,
)
    requires
        brought_up_so_far(p, record, p.tx_ring.dma_addr, p.rx_ring.dma_addr),
    ensures
        activates_last(record + turn(p, reply), p.tx_ring.dma_addr, p.rx_ring.dma_addr),
        p.next(reply).1 matches Step::Wait(q) ==> brought_up_so_far(
            q,
            record + turn(p, reply),
            p.tx_ring.dma_addr,
            p.rx_ring.dma_addr,
        ),
{
    let (tx_addr, rx_addr) = (p.tx_ring.dma_addr, p.rx_ring.dma_addr);
    match p.procedure {
        BringUp::Open(open) => {
            let (actions, ring, step) = open.advance(p.tx_ring, p.rx_ring, reply);
            let next = record.push(Event::Heard(open.asks(), reply)) + did(actions);
            lemma_open_quiet(open, p.tx_ring, p.rx_ring, reply);
            lemma_quiet_after(record, open.asks(), reply, actions, tx_addr, rx_addr);
            lemma_set_up_turn(open, p.tx_ring, p.rx_ring, record, reply);
            if step is Done {
                let more = did::<Request, Reply>(activate_actions());
                assert(record + turn(p, reply) =~= next + more);
                lemma_anything_after(next, more, tx_addr, rx_addr);
                lemma_set_up_append(next, more, tx_addr, rx_addr);
            } else {
                assert(record + turn(p, reply) =~= next);
            }
        },
        BringUp::Activate(_) => {
            lemma_anything_after(record, turn(p, reply), tx_addr, rx_addr);
            lemma_set_up_append(record, turn(p, reply), tx_addr, rx_addr);
        },
    }
}

/// The bringing up from the middle on, after what `record` tells.
proof fn lemma_bring_up_order(
    p: OnNewRings<BringUp>,
    record: Seq<Event<Request, Reply>>,
    replies: Seq<Reply>,
)
    requires
        brought_up_so_far(p, record, p.tx_ring.dma_addr, p.rx_ring.dma_addr),
    ensures
        activates_last(record + run(p, replies).0, p.tx_ring.dma_addr, p.rx_ring.dma_addr),
    decreases replies.len(),
{
    if replies.len() == 0 {
        assert(record + run(p, replies).0 =~= record);
    } else {
        lemma_bring_up_turn(p, record, replies[0]);
        if let Step::Wait(q) = p.next(replies[0]).1 {
            let next = record + turn(p, replies[0]);
            lemma_bring_up_order(q, next, replies.drop_first());
            assert(record + run(p, replies).0 =~= next + run(q, replies.drop_first()).0);
        }
    }
}

/// Whatever the device answers while it is brought up: the kernel is let poll, the handler is
/// registered and interrupts are unmasked only after both units were told of their rings.
pub proof fn law_rings_first(
    netdev: NetDevice,
    tx_ring: Ring,
    rx_ring: Ring,
    replies: Seq<Reply>,
)
    ensures
        activates_last(
            run(OnNewRings { procedure: bring_up(netdev), tx_ring, rx_ring }, replies).0,
            tx_ring.dma_addr,
            rx_ring.dma_addr,
        ),
{
    let start = OnNewRings { procedure: bring_up(netdev), tx_ring, rx_ring };
    lemma_bring_up_order(start, seq![], replies);
    assert(seq![] + run(start, replies).0 =~= run(start, replies).0);
}

} // verus!
