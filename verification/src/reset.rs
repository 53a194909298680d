//! Resetting the adapter and giving its registers their first values.

use vstd::prelude::*;
use crate::defs::{
    E1000_CTRL, E1000_CTRL_RST, E1000_ICR, E1000_IMC, E1000_MANC, E1000_MANC_ARP_EN,
    E1000_MC_TBL_SIZE, E1000_PBA, E1000_PBA_48K, E1000_RA, E1000_RAR_ENTRIES, E1000_RCTL,
    E1000_TCTL, E1000_TCTL_PSP, E1000_TXDCTL, E1000_TXDCTL_FULL_TX_DESC_WB, E1000_TXDCTL_WTHRESH,
    E1000_VET,
};
use crate::bits::lemma_set_clear;
use crate::filter::{
    clear_addresses, clear_table, init_rx_addrs_actions, law_addresses_emptied, law_rar_set,
    law_table_cleared, rar_high, rar_low, rar_set_actions,
};
use crate::protocol::{
    Action, Fault, Protocol, Step, did, last_written, lemma_did_append, lemma_last_at,
    lemma_last_written, lemma_not_written,
};
use crate::resource::{
    Resource, flush, io_write, law_io_write, law_reg_write, port_writes, reg_write,
};
use crate::E1000;

verus! {

/// Mask all interrupts and stop both units before a reset.
pub open spec fn quiesce_actions() -> Seq<Action> {
    seq![
        reg_write(E1000_IMC, 0xffff_ffff),
        reg_write(E1000_RCTL, 0),
        reg_write(E1000_TCTL, E1000_TCTL_PSP),
        flush(),
        Action::Msleep(10),
    ]
}

/// After the reset: leave ARP frames to the host, mask all interrupts and forget those pending.
/// `manc` is what the management control register held.
pub open spec fn settle_actions(manc: u32) -> Seq<Action> {
    seq![
        reg_write(E1000_MANC, manc & !E1000_MANC_ARP_EN),
        reg_write(E1000_IMC, 0xffff_ffff),
        Action::Read { offset: E1000_ICR as usize },
    ]
}

/// Resetting the adapter.
#[derive(Clone, Copy, PartialEq, Eq, Debug)]
pub enum ResetHw {
    /// The reset is to be started through the I/O ports from `io_base` on.
    Restart { io_base: u64 },
    /// The reset is over.
    Settle,
}

impl Protocol for ResetHw {
    type Request = u32;

    type Reply = u32;

    type Result = ();

    open spec fn asks(self) -> u32 {
        match self {
            ResetHw::Restart { io_base } => E1000_CTRL,
            ResetHw::Settle => E1000_MANC,
        }
    }

    open spec fn next(self, reply: u32) -> (Seq<Action>, Step<ResetHw, ()>) {
        match self {
            ResetHw::Restart { io_base } => if io_base + 4 <= u64::MAX {
                (
                    io_write(io_base, E1000_CTRL, reply | E1000_CTRL_RST).push(Action::Msleep(5)),
                    Step::Wait(ResetHw::Settle),
                )
            } else {
                (
                    io_write(io_base, E1000_CTRL, reply | E1000_CTRL_RST),
                    Step::Fault(Fault::PortRange),
                )
            },
            ResetHw::Settle => (settle_actions(reply), Step::Done(())),
        }
    }
}

impl E1000 {
    /// Begins to reset the adapter.
    pub fn reset_hw(re: &mut Resource, io_base: u64) -> (reset: ResetHw)
        ensures
            final(re)@ == old(re)@ + quiesce_actions(),
            reset == (ResetHw::Restart { io_base }),
    {
        re.ew32(E1000_IMC, 0xffff_ffff);
        re.ew32(E1000_RCTL, 0);
        re.ew32(E1000_TCTL, E1000_TCTL_PSP);
        re.write_flush();
        re.push(Action::Msleep(10));
        ResetHw::Restart { io_base }
    }
}

impl ResetHw {
    /// The register to read next.
    pub fn register(&self) -> (reg: u32)
        ensures
            reg == self.asks(),
    {
        match self {
            ResetHw::Restart { .. } => E1000_CTRL,
            ResetHw::Settle => E1000_MANC,
        }
    }

    /// Goes on with what the register held.
    pub fn step(self, reply: u32, re: &mut Resource) -> (step: Step<ResetHw, ()>)
        ensures
            final(re)@ == old(re)@ + self.next(reply).0,
            step == self.next(reply).1,
    {
        match self {
            ResetHw::Restart { io_base } => {
                match re.write_reg_io(io_base, E1000_CTRL, reply | E1000_CTRL_RST) {
                    Ok(()) => {
                        re.push(Action::Msleep(5));
                        Step::Wait(ResetHw::Settle)
                    },
                    Err(fault) => Step::Fault(fault),
                }
            },
            ResetHw::Settle => {
                let manc: u32 = reply & !E1000_MANC_ARP_EN;
                re.ew32(E1000_MANC, manc);
                re.ew32(E1000_IMC, 0xffff_ffff);
                // Clear any pending interrupt events.
                re.push(Action::Read { offset: E1000_ICR as usize });
                Step::Done(())
            },
        }
    }
}

/// Switch VLAN filtering off, set the address filters, and clear the multicast table.
pub open spec fn init_hw_actions(mac_addr: [u8; 6]) -> Seq<Action> {
    seq![reg_write(E1000_VET, 0)] + init_rx_addrs_actions(mac_addr) + clear_table(
        E1000_MC_TBL_SIZE as int,
    )
}

/// What giving the registers their first values writes: the first address entry holds the adapter's
/// address, marked valid, the others and the multicast table are zero, and so is the VLAN type. No
/// other register is written.
pub proof fn law_first_values<Q, R>(mac_addr: [u8; 6])
    ensures
        ({
            let record = did::<Q, R>(init_hw_actions(mac_addr));
            &&& last_written(record, 0x5400) matches Some(low)
            &&& last_written(record, 0x5404) matches Some(high)
            &&& mac_addr[0] == low % 0x100
            &&& mac_addr[1] == low / 0x100 % 0x100
            &&& mac_addr[2] == low / 0x1_0000 % 0x100
            &&& mac_addr[3] == low / 0x100_0000
            &&& mac_addr[4] == high % 0x100
            &&& mac_addr[5] == high / 0x100 % 0x100
            &&& high / 0x1_0000 == 0x8000
            &&& forall|reg: u32|
                reg != 0x5400 && reg != 0x5404 ==> #[trigger] last_written(record, reg) == if reg
                    == 0x38 || (reg % 4 == 0 && (0x5200 <= reg < 0x5400 || 0x5408 <= reg
                    < 0x5478)) {
                    Some(0u32)
                } else {
                    None
                }
        }),
{
    let record = did::<Q, R>(init_hw_actions(mac_addr));
    law_rar_set::<Q, R>(mac_addr, 0);
    let own = did::<Q, R>(rar_set_actions(mac_addr, 0));
    assert forall|reg: u32| #[trigger] last_written(record, reg) == if reg == 0x5400 || reg
        == 0x5404 {
        last_written(own, reg)
    } else if reg == 0x38 || (reg % 4 == 0 && (0x5200 <= reg < 0x5400 || 0x5408 <= reg < 0x5478)) {
        Some(0u32)
    } else {
        None
    } by {
        lemma_first_values_written::<Q, R>(mac_addr, reg);
    }
    assert(last_written(record, 0x5400) == last_written(own, 0x5400));
    assert(last_written(record, 0x5404) == last_written(own, 0x5404));
}

/// What giving the registers their first values writes to each register.
proof fn lemma_first_values_written<Q, R>(mac_addr: [u8; 6], reg: u32)
    ensures
        last_written(did::<Q, R>(init_hw_actions(mac_addr)), reg) == if reg == 0x5400 || reg
            == 0x5404 {
            last_written(did::<Q, R>(rar_set_actions(mac_addr, 0)), reg)
        } else if reg == 0x38 || (reg % 4 == 0 && (0x5200 <= reg < 0x5400 || 0x5408 <= reg
            < 0x5478)) {
            Some(0u32)
        } else {
            None
        },
{
    let a = seq![reg_write(E1000_VET, 0)];
    let b = rar_set_actions(mac_addr, 0);
    let c = clear_addresses(E1000_RAR_ENTRIES as int);
    let d = clear_table(E1000_MC_TBL_SIZE as int);
    assert(init_hw_actions(mac_addr) =~= a + b + c + d);
    lemma_did_append::<Q, R>(a, b);
    lemma_did_append::<Q, R>(a + b, c);
    lemma_did_append::<Q, R>(a + b + c, d);
    lemma_last_written(did::<Q, R>(a), did::<Q, R>(b), reg);
    lemma_last_written(did::<Q, R>(a + b), did::<Q, R>(c), reg);
    lemma_last_written(did::<Q, R>(a + b + c), did::<Q, R>(d), reg);
    law_rar_set::<Q, R>(mac_addr, 0);
    assert(last_written(did::<Q, R>(b), reg) is Some <==> reg == 0x5400 || reg == 0x5404) by {
        let low = last_written(did::<Q, R>(b), 0x5400);
        let high = last_written(did::<Q, R>(b), 0x5404);
        assert(low is Some && high is Some);
    }
    law_addresses_emptied::<Q, R>(15, reg);
    law_table_cleared::<Q, R>(128, reg);
    law_reg_write::<Q, R>(E1000_VET, 0, reg);
}

/// When the registers have their first values, the first receive address entry holds the adapter's
/// address.
pub proof fn law_own_address<Q, R>(mac_addr: [u8; 6])
    ensures
        last_written(did::<Q, R>(init_hw_actions(mac_addr)), E1000_RA) == Some(rar_low(mac_addr)),
        last_written(did::<Q, R>(init_hw_actions(mac_addr)), (E1000_RA + 4) as u32) == Some(
            rar_high(mac_addr),
        ),
{
    lemma_first_values_written::<Q, R>(mac_addr, E1000_RA);
    lemma_first_values_written::<Q, R>(mac_addr, (E1000_RA + 4) as u32);
    lemma_own_entry::<Q, R>(mac_addr);
}

/// The first receive address entry takes two registers.
proof fn lemma_own_entry<Q, R>(mac_addr: [u8; 6])
    ensures
        last_written(did::<Q, R>(rar_set_actions(mac_addr, 0)), E1000_RA) == Some(
            rar_low(mac_addr),
        ),
        last_written(did::<Q, R>(rar_set_actions(mac_addr, 0)), (E1000_RA + 4) as u32) == Some(
            rar_high(mac_addr),
        ),
{
    assert((0u32 << 1) == 0 && (0u32 << 2) == 0 && (1u32 << 2) == 4) by (bit_vector);
    let own = did::<Q, R>(rar_set_actions(mac_addr, 0));
    lemma_last_at(own, E1000_RA, 0);
    lemma_last_at(own, (E1000_RA + 4) as u32, 2);
}

/// The transmit descriptor control register `ctrl` with the write-back policy set: full descriptors
/// are written back, with that policy's threshold in place of the one before.
pub open spec fn tx_write_back(ctrl: u32) -> u32 {
    (ctrl & !E1000_TXDCTL_WTHRESH) | E1000_TXDCTL_FULL_TX_DESC_WB
}

/// Whatever the register held, the write-back policy is in force afterwards, and nothing else
/// changes.
pub proof fn law_tx_write_back(ctrl: u32)
    ensures
        tx_write_back(ctrl) & 0x013F_0000 == 0x0101_0000,
        tx_write_back(ctrl) | 0x013F_0000 == ctrl | 0x013F_0000,
{
    let x = tx_write_back(ctrl);
    assert(x & 0x013F_0000 == 0x0101_0000 && x | 0x013F_0000 == ctrl | 0x013F_0000)
        by (bit_vector)
        requires
            x == (ctrl & !0x003F_0000u32) | 0x0101_0000u32,
    ;
}

/// Giving the registers their first values: the filters are set, the transmit descriptor control
/// register is to follow.
#[derive(Clone, Copy, PartialEq, Eq, Debug)]
pub struct InitHw;

impl Protocol for InitHw {
    type Request = u32;

    type Reply = u32;

    type Result = ();

    open spec fn asks(self) -> u32 {
        E1000_TXDCTL
    }

    open spec fn next(self, ctrl: u32) -> (Seq<Action>, Step<InitHw, ()>) {
        (seq![reg_write(E1000_TXDCTL, tx_write_back(ctrl))], Step::Done(()))
    }
}

impl E1000 {
    /// Begins to give the registers their first values.
    pub fn init_hw(re: &mut Resource, mac_addr: &[u8; 6]) -> (init: InitHw)
        ensures
            final(re)@ == old(re)@ + init_hw_actions(*mac_addr),
    {
        let ghost start = re@;
        // Disable VLAN filtering.
        re.ew32(E1000_VET, 0);
        E1000::init_rx_addrs(re, mac_addr);
        E1000::clear_multicast_table(re);
        assert(re@ =~= start + init_hw_actions(*mac_addr));
        InitHw
    }
}

impl InitHw {
    /// The register to read next.
    pub fn register(&self) -> (reg: u32)
        ensures
            reg == self.asks(),
    {
        E1000_TXDCTL
    }

    /// Goes on with what the register held.
    pub fn step(self, ctrl: u32, re: &mut Resource) -> (step: Step<InitHw, ()>)
        ensures
            final(re)@ == old(re)@ + self.next(ctrl).0,
            step == self.next(ctrl).1,
    {
        // Set the transmit descriptor write-back policy.
        let ctrl: u32 = (ctrl & !E1000_TXDCTL_WTHRESH) | E1000_TXDCTL_FULL_TX_DESC_WB;
        re.ew32(E1000_TXDCTL, ctrl);
        Step::Done(())
    }
}

/// Resetting the adapter and giving its registers their first values.
#[derive(Clone, Copy, PartialEq, Eq, Debug)]
pub enum Reset {
    Hw { mac_addr: [u8; 6], reset: ResetHw },
    Init { init: InitHw },
}

/// Size the packet buffer, then quiesce.
pub open spec fn reset_actions() -> Seq<Action> {
    seq![reg_write(E1000_PBA, E1000_PBA_48K)] + quiesce_actions()
}

impl Protocol for Reset {
    type Request = u32;

    type Reply = u32;

    type Result = ();

    open spec fn asks(self) -> u32 {
        match self {
            Reset::Hw { mac_addr, reset } => reset.asks(),
            Reset::Init { init } => init.asks(),
        }
    }

    open spec fn next(self, reply: u32) -> (Seq<Action>, Step<Reset, ()>) {
        match self {
            Reset::Hw { mac_addr, reset } => {
                let (actions, step) = reset.next(reply);
                match step {
                    Step::Wait(reset) => (actions, Step::Wait(Reset::Hw { mac_addr, reset })),
                    Step::Done(_) => (
                        actions + init_hw_actions(mac_addr),
                        Step::Wait(Reset::Init { init: InitHw }),
                    ),
                    Step::Fault(fault) => (actions, Step::Fault(fault)),
                }
            },
            Reset::Init { init } => (
                init.next(reply).0,
                match init.next(reply).1 {
                    Step::Wait(init) => Step::Wait(Reset::Init { init }),
                    Step::Done(_) => Step::Done(()),
                    Step::Fault(fault) => Step::Fault(fault),
                },
            ),
        }
    }
}

impl E1000 {
    /// Begins to reset the adapter and give its registers their first values.
    pub fn reset(re: &mut Resource, io_base: u64, mac_addr: &[u8; 6]) -> (reset: Reset)
        ensures
            final(re)@ == old(re)@ + reset_actions(),
            reset == (Reset::Hw { mac_addr: *mac_addr, reset: ResetHw::Restart { io_base } }),
    {
        let ghost start = re@;
        let pba: u32 = E1000_PBA_48K;
        re.ew32(E1000_PBA, pba);
        let reset = E1000::reset_hw(re, io_base);
        assert(re@ =~= start + reset_actions());
        Reset::Hw { mac_addr: *mac_addr, reset }
    }
}

impl Reset {
    /// The register to read next.
    pub fn register(&self) -> (reg: u32)
        ensures
            reg == self.asks(),
    {
        match self {
            Reset::Hw { reset, .. } => reset.register(),
            Reset::Init { init } => init.register(),
        }
    }

    /// Goes on with what the register held.
    pub fn step(self, reply: u32, re: &mut Resource) -> (step: Step<Reset, ()>)
        ensures
            final(re)@ == old(re)@ + self.next(reply).0,
            step == self.next(reply).1,
    {
        match self {
            Reset::Hw { mac_addr, reset } => match reset.step(reply, re) {
                Step::Wait(reset) => Step::Wait(Reset::Hw { mac_addr, reset }),
                Step::Done(_) => {
                    let init = E1000::init_hw(re, &mac_addr);
                    assert(re@ =~= old(re)@ + self.next(reply).0);
                    Step::Wait(Reset::Init { init })
                },
                Step::Fault(fault) => Step::Fault(fault),
            },
            Reset::Init { init } => match init.step(reply, re) {
                Step::Wait(init) => Step::Wait(Reset::Init { init }),
                Step::Done(_) => Step::Done(()),
                Step::Fault(fault) => Step::Fault(fault),
            },
        }
    }
}

/// Before a reset all interrupts are masked and both units stopped, the transmit unit left to pad
/// short packets; then the writes are forced out and ten milliseconds pass. No other register is
/// written.
pub proof fn law_quiesced<Q, R>(reg: u32)
    ensures
        last_written(did::<Q, R>(quiesce_actions()), reg) == if reg == 0xD8 {
            Some(u32::MAX)
        } else if reg == 0x100 {
            Some(0u32)
        } else if reg == 0x400 {
            Some(8u32)
        } else {
            None
        },
        quiesce_actions() == seq![
            Action::Write { offset: 0xD8, value: u32::MAX },
            Action::Write { offset: 0x100, value: 0 },
            Action::Write { offset: 0x400, value: 8 },
            Action::Read { offset: 8 },
            Action::Msleep(10),
        ],
{
    let record = did::<Q, R>(quiesce_actions());
    if reg == 0xD8 {
        lemma_last_at(record, reg, 0);
    } else if reg == 0x100 {
        lemma_last_at(record, reg, 1);
    } else if reg == 0x400 {
        lemma_last_at(record, reg, 2);
    } else {
        lemma_not_written(record, reg);
    }
}

/// The reset is asked for through the ports, with one write of the control register: its reset bit
/// is set, and nothing else changes. Five milliseconds pass after it. No register is written
/// otherwise.
pub proof fn law_restarted<Q, R>(io_base: u64, ctrl: u32, before: u32, reg: u32)
    requires
        io_base + 4 <= u64::MAX,
    ensures
        ({
            let (actions, step) = (ResetHw::Restart { io_base }).next(ctrl);
            &&& port_writes(io_base, before, actions.drop_last()).len() == 1
            &&& port_writes(io_base, before, actions.drop_last())[0].0 == 0
            &&& port_writes(io_base, before, actions.drop_last())[0].1 & 0x0400_0000 != 0
            &&& port_writes(io_base, before, actions.drop_last())[0].1 | 0x0400_0000 == ctrl
                | 0x0400_0000
            &&& actions.len() == 3
            &&& actions.last() == Action::Msleep(5)
            &&& (ResetHw::Restart { io_base }).asks() == 0
            &&& last_written(did::<Q, R>(actions), reg) is None
            &&& step == Step::<ResetHw, ()>::Wait(ResetHw::Settle)
        }),
{
    let actions = (ResetHw::Restart { io_base }).next(ctrl).0;
    let write = io_write(io_base, E1000_CTRL, ctrl | E1000_CTRL_RST);
    assert(actions.drop_last() =~= write);
    law_io_write(io_base, before, E1000_CTRL, ctrl | E1000_CTRL_RST);
    lemma_set_clear(ctrl, 0x0400_0000, 0);
    lemma_not_written(did::<Q, R>(actions), reg);
}

/// Ports that run past the last one are a fault.
pub proof fn law_ports_missing(io_base: u64, ctrl: u32)
    ensures
        (ResetHw::Restart { io_base }).next(ctrl).1 is Fault <==> io_base + 4 > u64::MAX,
        io_base + 4 > u64::MAX ==> (ResetHw::Restart { io_base }).next(ctrl).1 == Step::<
            ResetHw,
            (),
        >::Fault(Fault::PortRange),
        io_base + 4 > u64::MAX ==> (ResetHw::Restart { io_base }).next(ctrl).0 == seq![
            Action::Outl { value: 0, port: io_base },
        ],
{
}

/// After the reset ARP frames are left to the host, with nothing else in the management register
/// changed, all interrupts are masked, and those pending are forgotten by reading their causes. No
/// other register is written.
pub proof fn law_settled<Q, R>(manc: u32, reg: u32)
    ensures
        ({
            let (actions, step) = ResetHw::Settle.next(manc);
            let record = did::<Q, R>(actions);
            &&& last_written(record, 0x5820) matches Some(value)
            &&& value & 0x2000 == 0
            &&& value | 0x2000 == manc | 0x2000
            &&& last_written(record, 0xD8) == Some(u32::MAX)
            &&& reg != 0x5820 && reg != 0xD8 ==> last_written(record, reg) is None
            &&& actions.len() == 3
            &&& actions[0] is Write
            &&& actions[1] is Write
            &&& actions[2] == (Action::Read { offset: 0xC0 })
            &&& ResetHw::Settle.asks() == 0x5820
            &&& step == Step::<ResetHw, ()>::Done(())
        }),
{
    let record = did::<Q, R>(ResetHw::Settle.next(manc).0);
    lemma_set_clear(manc, 0x2000, 0);
    lemma_last_at(record, 0x5820, 0);
    lemma_last_at(record, 0xD8, 1);
    if reg != 0x5820 && reg != 0xD8 {
        lemma_not_written(record, reg);
    }
}

/// Giving the registers their first values ends with the transmit descriptor control register, to
/// which the write-back policy is written, and no other.
pub proof fn law_policy_written<Q, R>(ctrl: u32, reg: u32)
    ensures
        ({
            let record = did::<Q, R>(InitHw.next(ctrl).0);
            &&& last_written(record, 0x3828) matches Some(value)
            &&& value & 0x013F_0000 == 0x0101_0000
            &&& value | 0x013F_0000 == ctrl | 0x013F_0000
            &&& reg != 0x3828 ==> last_written(record, reg) is None
            &&& record.len() == 1
            &&& InitHw.asks() == 0x3828
            &&& InitHw.next(ctrl).1 == Step::<InitHw, ()>::Done(())
        }),
{
    law_tx_write_back(ctrl);
    law_reg_write::<Q, R>(E1000_TXDCTL, tx_write_back(ctrl), 0x3828);
    law_reg_write::<Q, R>(E1000_TXDCTL, tx_write_back(ctrl), reg);
}

/// Resetting the adapter begins with a packet buffer of 48 kilobytes and then quiesces it.
pub proof fn law_buffer_sized<Q, R>(reg: u32)
    ensures
        last_written(did::<Q, R>(reset_actions()), reg) == if reg == 0x1000 {
            Some(48u32)
        } else {
            last_written(did::<Q, R>(quiesce_actions()), reg)
        },
        reset_actions() == seq![Action::Write { offset: 0x1000, value: 48 }] + quiesce_actions(),
{
    let size = seq![reg_write(E1000_PBA, E1000_PBA_48K)];
    lemma_did_append::<Q, R>(size, quiesce_actions());
    lemma_last_written(did::<Q, R>(size), did::<Q, R>(quiesce_actions()), reg);
    law_reg_write::<Q, R>(E1000_PBA, E1000_PBA_48K, reg);
    law_quiesced::<Q, R>(reg);
}

/// The registers get their first values right after the reset, for the address given: the VLAN
/// type, then the address entries, then the multicast table. A fault of the reset is a fault of the
/// whole.
pub proof fn law_reset_parts(mac_addr: [u8; 6], reset: ResetHw, reply: u32)
    ensures
        init_hw_actions(mac_addr) == seq![Action::Write { offset: 0x38, value: 0 }]
            + rar_set_actions(mac_addr, 0) + clear_addresses(15) + clear_table(128),
        ({
            let whole = Reset::Hw { mac_addr, reset };
            let (actions, step) = whole.next(reply);
            let part = reset.next(reply);
            &&& whole.asks() == reset.asks()
            &&& part.1 matches Step::Wait(next) ==> actions == part.0 && step == Step::<
                Reset,
                (),
            >::Wait(Reset::Hw { mac_addr, reset: next })
            &&& part.1 is Done ==> actions == part.0 + init_hw_actions(mac_addr) && step == Step::<
                Reset,
                (),
            >::Wait(Reset::Init { init: InitHw })
            &&& part.1 matches Step::Fault(fault) ==> actions == part.0 && step == Step::<
                Reset,
                (),
            >::Fault(fault)
        }),
        ({
            let whole = Reset::Init { init: InitHw };
            &&& whole.asks() == InitHw.asks()
            &&& whole.next(reply) == (InitHw.next(reply).0, Step::<Reset, ()>::Done(()))
        }),
{
    assert(init_hw_actions(mac_addr) =~= seq![Action::Write { offset: 0x38, value: 0 }]
        + rar_set_actions(mac_addr, 0) + clear_addresses(15) + clear_table(128));
}

} // verus!
