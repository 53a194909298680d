//! Setting up the transmit and receive units, and the interrupts.

use vstd::prelude::*;
use crate::defs::{
    DEFAULT_82543_TIPG_IPGR1, DEFAULT_82543_TIPG_IPGR2, DEFAULT_82543_TIPG_IPGT_COPPER,
    DEFAULT_TXD, DESC_SIZE, E1000_COLLISION_THRESHOLD, E1000_CT_SHIFT, E1000_IMC, E1000_IMS,
    E1000_IMS_ENABLE_MASK, E1000_ITR, E1000_RADV, E1000_RCTL, E1000_RCTL_BAM, E1000_RCTL_BSEX,
    E1000_RCTL_EN, E1000_RCTL_LBM_NO, E1000_RCTL_LPE, E1000_RCTL_MO_SHIFT, E1000_RCTL_RDMTS_HALF,
    E1000_RCTL_SBP, E1000_RCTL_SZ_2048, E1000_RCTL_SZ_4096, E1000_RDBAH, E1000_RDBAL,
    E1000_RDH, E1000_RDLEN, E1000_RDT, E1000_RDTR, E1000_TADV, E1000_TCTL,
    E1000_TCTL_CT, E1000_TCTL_PSP, E1000_TCTL_RTLC, E1000_TDBAH, E1000_TDBAL, E1000_TDH,
    E1000_TDLEN, E1000_TDT, E1000_TIDV, E1000_TIPG, E1000_TIPG_IPGR1_SHIFT, E1000_TIPG_IPGR2_SHIFT,
    ETH_DATA_LEN,
};
use crate::filter::NetDevice;
use crate::bits::lemma_set_clear;
use crate::protocol::{Action, did, last_written, lemma_last_at, lemma_not_written};
use crate::resource::{Resource, flush, reg_write};
use crate::ring::Ring;
use crate::E1000;

verus! {

/// The upper half of an address.
pub open spec fn high_half(addr: u64) -> u32 {
    (addr / 0x1_0000_0000) as u32
}

/// The lower half of an address.
pub open spec fn low_half(addr: u64) -> u32 {
    (addr % 0x1_0000_0000) as u32
}

/// Bytes that the descriptors of a ring take.
pub open spec fn ring_bytes() -> u32 {
    (DEFAULT_TXD * DESC_SIZE) as u32
}

/// Tell the transmit unit where its descriptors are, and how to space frames and interrupts.
pub open spec fn configure_tx_actions(dma_addr: u64) -> Seq<Action> {
    seq![
        reg_write(E1000_TDLEN, ring_bytes()),
        reg_write(E1000_TDBAH, high_half(dma_addr)),
        reg_write(E1000_TDBAL, low_half(dma_addr)),
        reg_write(E1000_TDT, 0),
        reg_write(E1000_TDH, 0),
        reg_write(E1000_TIPG, 8 | (8u32 << 10) | (6u32 << 20)),
        reg_write(E1000_TIDV, 0),
        reg_write(E1000_TADV, 0),
    ]
}

/// The transmit control register `tctl` with short packets padded, retransmission on late
/// collisions, and the usual collision threshold.
pub open spec fn tx_control(tctl: u32) -> u32 {
    (tctl & !E1000_TCTL_CT) | (E1000_TCTL_PSP | E1000_TCTL_RTLC | (E1000_COLLISION_THRESHOLD
        << E1000_CT_SHIFT))
}

/// The receive control register `rctl` for frames of ordinary length in buffers of 2048 bytes:
/// broadcast is accepted; bad frames, long frames and other multicast offsets are not.
pub open spec fn rx_control(rctl: u32) -> u32 {
    (rctl & !((3u32 << E1000_RCTL_MO_SHIFT) | E1000_RCTL_SBP | E1000_RCTL_LPE | E1000_RCTL_SZ_4096
        | E1000_RCTL_BSEX)) | E1000_RCTL_BAM
}

/// Stop the receive unit, tell it where its descriptors are and how to space interrupts, and start
/// it. `rctl` is what the receive control register held.
pub open spec fn configure_rx_actions(dma_addr: u64, rctl: u32) -> Seq<Action> {
    seq![
        reg_write(E1000_RCTL, rctl & !E1000_RCTL_EN),
        reg_write(E1000_RDTR, 0),
        reg_write(E1000_RADV, 8),
        reg_write(E1000_ITR, 1_302_083),
        reg_write(E1000_RDLEN, ring_bytes()),
        reg_write(E1000_RDBAH, high_half(dma_addr)),
        reg_write(E1000_RDBAL, low_half(dma_addr)),
        reg_write(E1000_RDT, 0),
        reg_write(E1000_RDH, 0),
        reg_write(E1000_RCTL, rctl | E1000_RCTL_EN),
    ]
}

/// The halves of an address by shift and mask are those by division.
proof fn lemma_halves(addr: u64)
    ensures
        (addr >> 32) as u32 == high_half(addr),
        (addr & 0x0000_0000_ffff_ffff) as u32 == low_half(addr),
{
    assert(addr >> 32 == addr / 0x1_0000_0000 && addr & 0x0000_0000_ffff_ffff == addr
        % 0x1_0000_0000) by (bit_vector);
}

/// Whether an interrupt was the adapter's.
#[derive(Clone, Copy, PartialEq, Eq, Debug)]
pub enum IrqReturn {
    NotMine,
    Handled,
}

impl E1000 {
    /// Sets up the transmit unit for `tx_ring`, up to the transmit control register.
    pub fn configure_tx(re: &mut Resource, tx_ring: &Ring)
        ensures
            final(re)@ == old(re)@ + configure_tx_actions(tx_ring.dma_addr),
    {
        let tdba: u64 = tx_ring.dma_addr;
        let tdlen: usize = DEFAULT_TXD * DESC_SIZE;
        proof {
            lemma_halves(tdba);
        }
        re.ew32(E1000_TDLEN, tdlen as u32);
        re.ew32(E1000_TDBAH, (tdba >> 32) as u32);
        re.ew32(E1000_TDBAL, (tdba & 0x0000_0000_ffff_ffff) as u32);
        re.ew32(E1000_TDT, 0);
        re.ew32(E1000_TDH, 0);
        let mut tipg: u32 = DEFAULT_82543_TIPG_IPGT_COPPER;
        let ipgr1: u32 = DEFAULT_82543_TIPG_IPGR1;
        let ipgr2: u32 = DEFAULT_82543_TIPG_IPGR2;
        tipg = tipg | (ipgr1 << E1000_TIPG_IPGR1_SHIFT);
        tipg = tipg | (ipgr2 << E1000_TIPG_IPGR2_SHIFT);
        re.ew32(E1000_TIPG, tipg);
        // Set the transmit interrupt delay.
        re.ew32(E1000_TIDV, 0);
        re.ew32(E1000_TADV, 0);
    }

    /// Finishes the set-up of the transmit unit. `tctl` is what the transmit control register
    /// held.
    pub fn configure_tctl(re: &mut Resource, tctl: u32)
        ensures
            final(re)@ == old(re)@.push(reg_write(E1000_TCTL, tx_control(tctl))),
    {
        let mut tctl: u32 = tctl & !E1000_TCTL_CT;
        tctl = tctl | (E1000_TCTL_PSP | E1000_TCTL_RTLC | (E1000_COLLISION_THRESHOLD
            << E1000_CT_SHIFT));
        re.ew32(E1000_TCTL, tctl);
    }

    /// Sets the receive control register, which held `rctl`.
    pub fn setup_rctl(re: &mut Resource, netdev: &NetDevice, rctl: u32)
        requires
            netdev.mtu <= ETH_DATA_LEN,
        ensures
            final(re)@ == old(re)@.push(reg_write(E1000_RCTL, rx_control(rctl))),
    {
        let ghost reply = rctl;
        let mut rctl: u32 = rctl;
        rctl = rctl & !(3u32 << E1000_RCTL_MO_SHIFT);
        rctl = rctl | (E1000_RCTL_BAM | E1000_RCTL_LBM_NO | E1000_RCTL_RDMTS_HALF);
        rctl = rctl & !E1000_RCTL_SBP;
        rctl = rctl & !E1000_RCTL_LPE;
        rctl = rctl & !E1000_RCTL_SZ_4096;
        rctl = rctl | E1000_RCTL_SZ_2048;
        rctl = rctl & !E1000_RCTL_BSEX;
        assert(rctl == rx_control(reply)) by (bit_vector)
            requires
                rctl == ((((((reply & !(3u32 << 12u32)) | (0x8000u32 | 0u32 | 0u32)) & !0x4u32)
                    & !0x20u32) & !0x30000u32) | 0u32) & !0x0200_0000u32,
        ;
        re.ew32(E1000_RCTL, rctl);
    }

    /// Sets up the receive unit for `rx_ring`. `rctl` is what the receive control register held.
    pub fn configure_rx(re: &mut Resource, rx_ring: &Ring, rctl: u32)
        ensures
            final(re)@ == old(re)@ + configure_rx_actions(rx_ring.dma_addr, rctl),
    {
        // Disable receives while setting up the descriptors.
        re.ew32(E1000_RCTL, rctl & !E1000_RCTL_EN);
        // Set the receive delay timers.
        re.ew32(E1000_RDTR, 0);
        re.ew32(E1000_RADV, 8);
        let itr: u32 = 1000000000 / (3 * 256);
        assert(itr == 1_302_083) by (nonlinear_arith)
            requires
                itr == 1000000000int / (3int * 256int),
        ;
        re.ew32(E1000_ITR, itr);
        let rdba: u64 = rx_ring.dma_addr;
        let rdlen: usize = DEFAULT_TXD * DESC_SIZE;
        proof {
            lemma_halves(rdba);
        }
        re.ew32(E1000_RDLEN, rdlen as u32);
        re.ew32(E1000_RDBAH, (rdba >> 32) as u32);
        re.ew32(E1000_RDBAL, (rdba & 0x0000_0000_ffff_ffff) as u32);
        re.ew32(E1000_RDT, 0);
        re.ew32(E1000_RDH, 0);
        // Enable receives.
        re.ew32(E1000_RCTL, rctl | E1000_RCTL_EN);
    }

    /// Lets the adapter interrupt.
    pub fn irq_enable(re: &mut Resource)
        ensures
            final(re)@ == old(re)@ + irq_enable_actions(),
    {
        re.ew32(E1000_IMS, E1000_IMS_ENABLE_MASK);
        re.write_flush();
    }

    /// Keeps the adapter from interrupting.
    pub fn irq_disable(re: &mut Resource)
        ensures
            final(re)@ == old(re)@ + irq_disable_actions(),
    {
        assert(!0u32 == 0xffff_ffff) by (bit_vector);
        re.ew32(E1000_IMC, !0u32);
        re.write_flush();
    }

    /// Brings the software side to its first state, in which the adapter does not interrupt.
    pub fn sw_init(re: &mut Resource)
        ensures
            final(re)@ == old(re)@ + irq_disable_actions(),
    {
        E1000::irq_disable(re);
    }

    /// Handles an interrupt. `icr` is what the interrupt cause register held.
    pub fn handle_irq(re: &mut Resource, icr: u32) -> (handled: IrqReturn)
        ensures
            icr == 0 ==> handled == IrqReturn::NotMine && final(re)@ == old(re)@,
            icr != 0 ==> handled == IrqReturn::Handled && final(re)@ == old(re)@.push(
                Action::NapiSchedule,
            ),
    {
        if icr == 0 {
            return IrqReturn::NotMine;
        }
        re.push(Action::NapiSchedule);
        IrqReturn::Handled
    }
}

/// Unmask the interrupts that the driver handles.
pub open spec fn irq_enable_actions() -> Seq<Action> {
    seq![reg_write(E1000_IMS, E1000_IMS_ENABLE_MASK), flush()]
}

/// Mask all interrupts.
pub open spec fn irq_disable_actions() -> Seq<Action> {
    seq![reg_write(E1000_IMC, 0xffff_ffff), flush()]
}

/// The transmit unit pads short packets, retransmits on late collisions and has a collision
/// threshold of 15; nothing else changes.
pub proof fn law_tx_control(tctl: u32)
    ensures
        tx_control(tctl) & 0x8 != 0,
        tx_control(tctl) & 0x0100_0000 != 0,
        (tx_control(tctl) & 0xFF0) / 0x10 == 15,
        tx_control(tctl) | 0x0100_0FF8 == tctl | 0x0100_0FF8,
{
    let x = tx_control(tctl);
    assert(x & 0x8 != 0 && x & 0x0100_0000 != 0 && (x & 0xFF0) / 0x10 == 15 && x | 0x0100_0FF8
        == tctl | 0x0100_0FF8) by (bit_vector)
        requires
            x == (tctl & !0x0FF0u32) | (0x8u32 | 0x0100_0000u32 | (15u32 << 4u32)),
    ;
}

/// The receive unit takes broadcast frames, and neither bad nor long ones, in buffers of 2048
/// bytes, with the multicast offset at its lowest; nothing else changes.
pub proof fn law_rx_control(rctl: u32)
    ensures
        rx_control(rctl) & 0x8000 != 0,
        rx_control(rctl) & 0x4 == 0,
        rx_control(rctl) & 0x20 == 0,
        rx_control(rctl) & 0x0203_0000 == 0,
        rx_control(rctl) & 0x3000 == 0,
        rx_control(rctl) & 0x1A == rctl & 0x1A,
        rx_control(rctl) | 0x0203_B024 == rctl | 0x0203_B024,
{
    let x = rx_control(rctl);
    assert(x & 0x8000 != 0 && x & 0x4 == 0 && x & 0x20 == 0 && x & 0x0203_0000 == 0 && x & 0x3000
        == 0 && x & 0x1A == rctl & 0x1A && x | 0x0203_B024 == rctl | 0x0203_B024) by (bit_vector)
        requires
            x == (rctl & !((3u32 << 12u32) | 0x4u32 | 0x20u32 | 0x30000u32 | 0x0200_0000u32))
                | 0x8000u32,
    ;
}

/// The transmit unit is told where the descriptors of its ring are, all 64 bits of it, and that
/// they take 128 times 16 bytes. It starts with an empty ring, the gaps between frames are those
/// for copper, and interrupts are not delayed. No other register is written.
pub proof fn law_tx_unit<Q, R>(dma_addr: u64)
    ensures
        ({
            let record = did::<Q, R>(configure_tx_actions(dma_addr));
            &&& last_written(record, 0x3804) matches Some(high)
            &&& last_written(record, 0x3800) matches Some(low)
            &&& high * 0x1_0000_0000 + low == dma_addr
            &&& last_written(record, 0x3808) == Some((128 * 16) as u32)
            &&& last_written(record, 0x3810) == Some(0u32)
            &&& last_written(record, 0x3818) == Some(0u32)
            &&& last_written(record, 0x410) == Some((8 + 8 * 0x400 + 6 * 0x10_0000) as u32)
            &&& last_written(record, 0x3820) == Some(0u32)
            &&& last_written(record, 0x382C) == Some(0u32)
            &&& forall|reg: u32|
                #[trigger] last_written(record, reg) is Some ==> reg == 0x410 || reg == 0x3800
                    || reg == 0x3804 || reg == 0x3808 || reg == 0x3810 || reg == 0x3818 || reg
                    == 0x3820 || reg == 0x382C
        }),
{
    let record = did::<Q, R>(configure_tx_actions(dma_addr));
    assert(8 | (8u32 << 10) | (6u32 << 20) == 8 + 8 * 0x400 + 6 * 0x10_0000) by (bit_vector);
    lemma_last_at(record, 0x3808, 0);
    lemma_last_at(record, 0x3804, 1);
    lemma_last_at(record, 0x3800, 2);
    lemma_last_at(record, 0x3818, 3);
    lemma_last_at(record, 0x3810, 4);
    lemma_last_at(record, 0x410, 5);
    lemma_last_at(record, 0x3820, 6);
    lemma_last_at(record, 0x382C, 7);
    assert forall|reg: u32| #[trigger] last_written(record, reg) is Some implies reg == 0x410 || reg
        == 0x3800 || reg == 0x3804 || reg == 0x3808 || reg == 0x3810 || reg == 0x3818 || reg
        == 0x3820 || reg == 0x382C by {
        if !(reg == 0x410 || reg == 0x3800 || reg == 0x3804 || reg == 0x3808 || reg == 0x3810 || reg
            == 0x3818 || reg == 0x3820 || reg == 0x382C) {
            lemma_not_written(record, reg);
        }
    }
}

/// The receive unit is told where the descriptors of its ring are, all 64 bits of it, and that they
/// take 128 times 16 bytes. It starts with an empty ring and is left running, and the pause between
/// interrupts is a third of a billion in units of 256. No other register is written.
pub proof fn law_rx_unit<Q, R>(dma_addr: u64, rctl: u32)
    ensures
        ({
            let record = did::<Q, R>(configure_rx_actions(dma_addr, rctl));
            &&& last_written(record, 0x2804) matches Some(high)
            &&& last_written(record, 0x2800) matches Some(low)
            &&& high * 0x1_0000_0000 + low == dma_addr
            &&& last_written(record, 0x2808) == Some((128 * 16) as u32)
            &&& last_written(record, 0x2810) == Some(0u32)
            &&& last_written(record, 0x2818) == Some(0u32)
            &&& last_written(record, 0x2820) == Some(0u32)
            &&& last_written(record, 0x282C) == Some(8u32)
            &&& last_written(record, 0xC4) matches Some(itr)
            &&& itr * 768 <= 1_000_000_000 < (itr + 1) * 768
            &&& last_written(record, 0x100) matches Some(on)
            &&& on & 2 != 0
            &&& on | 2 == rctl | 2
            &&& forall|reg: u32|
                #[trigger] last_written(record, reg) is Some ==> reg == 0x100 || reg == 0xC4 || reg
                    == 0x2800 || reg == 0x2804 || reg == 0x2808 || reg == 0x2810 || reg == 0x2818
                    || reg == 0x2820 || reg == 0x282C
        }),
{
    let record = did::<Q, R>(configure_rx_actions(dma_addr, rctl));
    lemma_set_clear(rctl, 2, 0);
    lemma_last_at(record, 0x2820, 1);
    lemma_last_at(record, 0x282C, 2);
    lemma_last_at(record, 0xC4, 3);
    lemma_last_at(record, 0x2808, 4);
    lemma_last_at(record, 0x2804, 5);
    lemma_last_at(record, 0x2800, 6);
    lemma_last_at(record, 0x2818, 7);
    lemma_last_at(record, 0x2810, 8);
    lemma_last_at(record, 0x100, 9);
    assert forall|reg: u32| #[trigger] last_written(record, reg) is Some implies reg == 0x100 || reg
        == 0xC4 || reg == 0x2800 || reg == 0x2804 || reg == 0x2808 || reg == 0x2810 || reg == 0x2818
        || reg == 0x2820 || reg == 0x282C by {
        if !(reg == 0x100 || reg == 0xC4 || reg == 0x2800 || reg == 0x2804 || reg == 0x2808 || reg
            == 0x2810 || reg == 0x2818 || reg == 0x2820 || reg == 0x282C) {
            lemma_not_written(record, reg);
        }
    }
}

/// The receive unit is stopped before it is told of another ring, and started only after that: the
/// first write clears its enable bit alone, the last one sets it, and none in between touches it.
pub proof fn law_rx_unit_stopped(dma_addr: u64, rctl: u32, i: int)
    requires
        0 <= i < configure_rx_actions(dma_addr, rctl).len(),
    ensures
        ({
            let actions = configure_rx_actions(dma_addr, rctl);
            &&& actions[i] matches Action::Write { offset, value }
            &&& offset == 0x100 <==> i == 0 || i == actions.len() - 1
            &&& i == 0 ==> value & 2 == 0 && value | 2 == rctl | 2
            &&& i == actions.len() - 1 ==> value & 2 != 0 && value | 2 == rctl | 2
        }),
{
    lemma_set_clear(rctl, 2, 0);
}

/// Unmasking lets through the causes that the driver handles: receive timer, transmit write-back,
/// receive threshold, receive sequence and link change. Masking stops all causes. Both are forced
/// out to the device, and neither writes another register.
pub proof fn law_interrupt_masks<Q, R>(reg: u32)
    ensures
        last_written(did::<Q, R>(irq_enable_actions()), reg) == if reg == 0xD0 {
            Some((0x80 + 0x01 + 0x10 + 0x08 + 0x04) as u32)
        } else {
            None
        },
        last_written(did::<Q, R>(irq_disable_actions()), reg) == if reg == 0xD8 {
            Some(u32::MAX)
        } else {
            None
        },
        irq_enable_actions().len() == 2,
        irq_disable_actions().len() == 2,
        irq_enable_actions().last() == (Action::Read { offset: 8 }),
        irq_disable_actions().last() == (Action::Read { offset: 8 }),
{
    let on = did::<Q, R>(irq_enable_actions());
    let off = did::<Q, R>(irq_disable_actions());
    if reg == 0xD0 {
        lemma_last_at(on, reg, 0);
    } else {
        lemma_not_written(on, reg);
    }
    if reg == 0xD8 {
        lemma_last_at(off, reg, 0);
    } else {
        lemma_not_written(off, reg);
    }
}

/// The registers that `actions` write, in order.
pub open spec fn offsets(actions: Seq<Action>) -> Seq<int> {
    Seq::new(
        actions.len(),
        |i: int|
            match actions[i] {
                Action::Write { offset, .. } => offset as int,
                _ => -1,
            },
    )
}

/// Setting up a unit writes each of its registers once, the ring's size before its address and that
/// before its positions; the receive control register alone is written twice, at both ends.
pub proof fn law_unit_order(dma_addr: u64, rctl: u32)
    ensures
        offsets(configure_tx_actions(dma_addr)) == seq![
            0x3808int,
            0x3804,
            0x3800,
            0x3818,
            0x3810,
            0x410,
            0x3820,
            0x382C,
        ],
        offsets(configure_rx_actions(dma_addr, rctl)) == seq![
            0x100int,
            0x2820,
            0x282C,
            0xC4,
            0x2808,
            0x2804,
            0x2800,
            0x2818,
            0x2810,
            0x100,
        ],
{
}

} // verus!
