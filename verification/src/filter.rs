//! The address filters: which frames the adapter takes in.

use vstd::prelude::*;
use crate::defs::{
    E1000_MC_TBL_SIZE, E1000_MTA, E1000_NUM_MTA_REGISTERS, E1000_RA, E1000_RAH_AV,
    E1000_RAR_ENTRIES, E1000_RCTL, E1000_RCTL_MPE, E1000_RCTL_UPE, IFF_ALLMULTI, IFF_PROMISC,
};
use crate::protocol::{
    Action, Fault, Protocol, Step, did, last_written, lemma_did_append, lemma_last_at,
    lemma_last_written, lemma_not_written,
};
use crate::resource::{Resource, array_write, flush, reg_write};
use crate::E1000;

verus! {

/// What the driver needs to know of the network device.
#[derive(Clone, Copy, PartialEq, Eq, Debug)]
pub struct NetDevice {
    pub flags: u32,
    /// Additional unicast addresses to receive.
    pub uc_count: i32,
    pub mtu: u32,
}

impl NetDevice {
    /// The driver supports neither promiscuous mode nor additional unicast addresses.
    pub open spec fn plain_filter(self) -> bool {
        self.flags & IFF_PROMISC == 0 && self.uc_count == 0
    }

    /// All multicast frames are wanted.
    pub open spec fn all_multicast(self) -> bool {
        self.flags & IFF_ALLMULTI != 0
    }
}

/// The receive control register `rctl` with multicast promiscuity as wanted and without unicast
/// promiscuity.
pub open spec fn rx_mode(rctl: u32, all_multicast: bool) -> u32 {
    if all_multicast {
        (rctl | E1000_RCTL_MPE) & !E1000_RCTL_UPE
    } else {
        (rctl & !E1000_RCTL_MPE) & !E1000_RCTL_UPE
    }
}

/// Write zero to the register `offset` bytes in.
pub open spec fn clear(offset: int) -> Action {
    Action::Write { offset: offset as usize, value: 0 }
}

/// Empty receive address entry `i`, which has two registers.
pub open spec fn clear_address(i: int) -> Seq<Action> {
    seq![clear(E1000_RA + 8 * i), flush(), clear(E1000_RA + 8 * i + 4), flush()]
}

/// Empty the receive address entries from the second to the one before `n`.
pub open spec fn clear_addresses(n: int) -> Seq<Action>
    decreases n,
{
    if n <= 1 {
        seq![]
    } else {
        clear_addresses(n - 1) + clear_address(n - 1)
    }
}

/// Clear `n` registers at four times the multicast table's offset, the last first.
pub open spec fn clear_shifted_table(n: int) -> Seq<Action>
    decreases n,
{
    if n <= 0 {
        seq![]
    } else {
        seq![clear(4 * (E1000_MTA + n - 1))] + clear_shifted_table(n - 1)
    }
}

/// Clear the first `n` entries of the multicast table.
pub open spec fn clear_table(n: int) -> Seq<Action>
    decreases n,
{
    if n <= 0 {
        seq![]
    } else {
        clear_table(n - 1) + seq![clear(E1000_MTA + 4 * (n - 1)), flush()]
    }
}

/// Set the receive mode from what the receive control register held.
pub open spec fn set_rx_mode_actions(netdev: NetDevice, rctl: u32) -> Seq<Action> {
    seq![reg_write(E1000_RCTL, rx_mode(rctl, netdev.all_multicast()))] + clear_addresses(
        E1000_RAR_ENTRIES as int,
    ) + clear_shifted_table(E1000_NUM_MTA_REGISTERS as int) + seq![flush()]
}

/// The first four bytes of an address as a receive address register holds them.
pub open spec fn rar_low(mac_addr: [u8; 6]) -> u32 {
    (mac_addr[0] + 0x100 * mac_addr[1] + 0x1_0000 * mac_addr[2] + 0x100_0000 * mac_addr[3]) as u32
}

/// The last two bytes of an address as a receive address register holds them, marked valid.
pub open spec fn rar_high(mac_addr: [u8; 6]) -> u32 {
    (mac_addr[4] + 0x100 * mac_addr[5] + E1000_RAH_AV) as u32
}

/// Put an address in receive address entry `index`.
pub open spec fn rar_set_actions(mac_addr: [u8; 6], index: u32) -> Seq<Action> {
    seq![
        array_write(E1000_RA, index << 1, rar_low(mac_addr)),
        flush(),
        array_write(E1000_RA, ((index << 1) + 1) as u32, rar_high(mac_addr)),
        flush(),
    ]
}

/// Put the adapter's address in the first receive address entry and empty the others.
pub open spec fn init_rx_addrs_actions(mac_addr: [u8; 6]) -> Seq<Action> {
    rar_set_actions(mac_addr, 0) + clear_addresses(E1000_RAR_ENTRIES as int)
}

/// Doubling an index leaves room for the odd one after it; shifting twice more is times eight.
proof fn lemma_entry(i: u32)
    ensures
        (i << 1) < u32::MAX,
        (i << 1) << 2 == (8 * i) % 0x1_0000_0000,
        (((i << 1) + 1) as u32) << 2 == (8 * i) % 0x1_0000_0000 + 4,
        i < 0x1000 ==> (i << 1) << 2 == 8 * i,
        i < 0x1000 ==> (((i << 1) + 1) as u32) << 2 == 8 * i + 4,
        i < 0x1000 ==> i << 2 == 4 * i,
{
    assert((i << 1) < 0xffff_ffff && (i << 1) << 2 == (8 * i) % 0x1_0000_0000 && (((i << 1)
        + 1) as u32) << 2 == (8 * i) % 0x1_0000_0000 + 4 && (i < 0x1000 ==> i << 2 == 4 * i))
        by (bit_vector);
}

/// The bytes of an address side by side are their sum by place.
proof fn lemma_rar(mac_addr: [u8; 6])
    ensures
        rar_low(mac_addr) == (mac_addr[0] as u32 | (mac_addr[1] as u32) << 8 | (mac_addr[2] as u32)
            << 16 | (mac_addr[3] as u32) << 24),
        rar_high(mac_addr) == (mac_addr[4] as u32 | (mac_addr[5] as u32) << 8 | E1000_RAH_AV),
{
    let (a, b, c, d) = (mac_addr[0], mac_addr[1], mac_addr[2], mac_addr[3]);
    assert((a + 0x100 * b + 0x1_0000 * c + 0x100_0000 * d) as u32 == (a as u32 | (b as u32) << 8 | (
    c as u32) << 16 | (d as u32) << 24)) by (bit_vector);
    let (e, f) = (mac_addr[4], mac_addr[5]);
    assert((e + 0x100 * f + 0x8000_0000u32) as u32 == (e as u32 | (f as u32) << 8 | 0x8000_0000u32))
        by (bit_vector);
}

impl E1000 {
    /// Sets the receive mode. `rctl` is what the receive control register held.
    pub fn set_rx_mode(re: &mut Resource, netdev: &NetDevice, rctl: u32)
        requires
            netdev.plain_filter(),
        ensures
            final(re)@ == old(re)@ + set_rx_mode_actions(*netdev, rctl),
    {
        let mut rctl: u32 = rctl;
        let ghost start = re@;
        let ghost reply = rctl;
        if netdev.flags & IFF_ALLMULTI > 0 {
            rctl = rctl | E1000_RCTL_MPE;
        } else {
            rctl = rctl & !E1000_RCTL_MPE;
        }
        rctl = rctl & !E1000_RCTL_UPE;
        re.ew32(E1000_RCTL, rctl);
        let mut i: u32 = 1;
        let ghost first = re@;
        while i < E1000_RAR_ENTRIES
            invariant
                1 <= i <= E1000_RAR_ENTRIES,
                re@ == first + clear_addresses(i as int),
            decreases E1000_RAR_ENTRIES - i,
        {
            proof {
                lemma_entry(i);
            }
            let ghost before = re@;
            re.ew32(E1000_RA + ((i << 1) << 2), 0);
            re.write_flush();
            re.ew32(E1000_RA + (((i << 1) + 1) << 2), 0);
            re.write_flush();
            assert(re@ =~= before + clear_address(i as int));
            i = i + 1;
            assert(first + clear_addresses(i as int) =~= first + clear_addresses(i - 1)
                + clear_address(i - 1));
        }
        let ghost second = re@;
        let mut i: u32 = E1000_NUM_MTA_REGISTERS - 1;
        assert(second + clear_shifted_table(E1000_NUM_MTA_REGISTERS as int) =~= re@
            + clear_shifted_table(i + 1));
        loop
            invariant_except_break
                second + clear_shifted_table(E1000_NUM_MTA_REGISTERS as int) == re@
                    + clear_shifted_table(i + 1),
            invariant
                i < E1000_NUM_MTA_REGISTERS,
            ensures
                second + clear_shifted_table(E1000_NUM_MTA_REGISTERS as int) == re@,
            decreases i,
        {
            let ghost before = re@;
            assert(((0x5200 + i) as u32) << 2 == 4 * (0x5200 + i)) by (bit_vector)
                requires
                    i < 128,
            ;
            re.ew32((E1000_MTA + i) << 2, 0);
            assert(before + clear_shifted_table(i + 1) =~= re@ + clear_shifted_table(i as int));
            if i == 0 {
                assert(re@ + clear_shifted_table(0) =~= re@);
                break;
            }
            i = i - 1;
        }
        re.write_flush();
        assert(re@ =~= start + set_rx_mode_actions(*netdev, reply));
    }

    /// Puts the address `mac_addr` in receive address entry `index`.
    pub fn rar_set(re: &mut Resource, mac_addr: &[u8; 6], index: u32)
        requires
            E1000_RA as usize + ((((index << 1) + 1) as u32) << 2) as usize <= usize::MAX,
            E1000_RA as usize + ((index << 1) << 2) as usize <= usize::MAX,
        ensures
            final(re)@ == old(re)@ + rar_set_actions(*mac_addr, index),
    {
        proof {
            lemma_rar(*mac_addr);
            lemma_entry(index);
        }
        let rar_low: u32 = mac_addr[0] as u32 | (mac_addr[1] as u32) << 8 | (mac_addr[2] as u32)
            << 16 | (mac_addr[3] as u32) << 24;
        let rar_high: u32 = mac_addr[4] as u32 | (mac_addr[5] as u32) << 8 | E1000_RAH_AV;
        re.write_reg_array(E1000_RA, index << 1, rar_low);
        re.write_flush();
        re.write_reg_array(E1000_RA, (index << 1) + 1, rar_high);
        re.write_flush();
    }

    /// Puts the address `mac_addr` in the first receive address entry and empties the others.
    pub fn init_rx_addrs(re: &mut Resource, mac_addr: &[u8; 6])
        ensures
            final(re)@ == old(re)@ + init_rx_addrs_actions(*mac_addr),
    {
        let ghost start = re@;
        proof {
            lemma_entry(0);
        }
        E1000::rar_set(re, mac_addr, 0);
        let mut i: u32 = 1;
        let ghost first = re@;
        while i < E1000_RAR_ENTRIES
            invariant
                1 <= i <= E1000_RAR_ENTRIES,
                re@ == first + clear_addresses(i as int),
            decreases E1000_RAR_ENTRIES - i,
        {
            proof {
                lemma_entry(i);
            }
            let ghost before = re@;
            re.write_reg_array(E1000_RA, i << 1, 0);
            re.write_flush();
            re.write_reg_array(E1000_RA, (i << 1) + 1, 0);
            re.write_flush();
            assert(re@ =~= before + clear_address(i as int));
            i = i + 1;
            assert(first + clear_addresses(i as int) =~= first + clear_addresses(i - 1)
                + clear_address(i - 1));
        }
        assert(re@ =~= start + init_rx_addrs_actions(*mac_addr));
    }

    /// Clears the multicast table.
    pub fn clear_multicast_table(re: &mut Resource)
        ensures
            final(re)@ == old(re)@ + clear_table(E1000_MC_TBL_SIZE as int),
    {
        let ghost start = re@;
        let mut i: u32 = 0;
        while i < E1000_MC_TBL_SIZE
            invariant
                i <= E1000_MC_TBL_SIZE,
                re@ == start + clear_table(i as int),
            decreases E1000_MC_TBL_SIZE - i,
        {
            proof {
                lemma_entry(i);
            }
            let ghost before = re@;
            re.write_reg_array(E1000_MTA, i, 0);
            // The flush keeps writes to the register space from being blocked.
            re.write_flush();
            i = i + 1;
            assert(re@ =~= start + clear_table(i as int));
        }
    }
}

/// Setting the receive mode.
#[derive(Clone, Copy, PartialEq, Eq, Debug)]
pub struct SetRxMode {
    pub netdev: NetDevice,
}

impl Protocol for SetRxMode {
    type Request = u32;

    type Reply = u32;

    type Result = ();

    open spec fn asks(self) -> u32 {
        E1000_RCTL
    }

    open spec fn next(self, rctl: u32) -> (Seq<Action>, Step<SetRxMode, ()>) {
        if self.netdev.flags & IFF_PROMISC != 0 {
            (seq![], Step::Fault(Fault::Promiscuous))
        } else if self.netdev.uc_count != 0 {
            (seq![], Step::Fault(Fault::UnicastFilter))
        } else {
            (set_rx_mode_actions(self.netdev, rctl), Step::Done(()))
        }
    }
}

impl SetRxMode {
    /// The register to read next.
    pub fn register(&self) -> (reg: u32)
        ensures
            reg == self.asks(),
    {
        E1000_RCTL
    }

    /// Goes on with what the register held.
    pub fn step(self, rctl: u32, re: &mut Resource) -> (step: Step<SetRxMode, ()>)
        ensures
            final(re)@ == old(re)@ + self.next(rctl).0,
            step == self.next(rctl).1,
    {
        assert(re@ =~= re@ + seq![]);
        if self.netdev.flags & IFF_PROMISC != 0 {
            return Step::Fault(Fault::Promiscuous);
        }
        if self.netdev.uc_count != 0 {
            return Step::Fault(Fault::UnicastFilter);
        }
        E1000::set_rx_mode(re, &self.netdev, rctl);
        Step::Done(())
    }
}

/// Multicast promiscuity is as wanted, unicast promiscuity is off, and nothing else changes.
pub proof fn law_rx_mode(rctl: u32, all_multicast: bool)
    ensures
        (rx_mode(rctl, all_multicast) & 0x10 != 0) == all_multicast,
        rx_mode(rctl, all_multicast) & 0x8 == 0,
        rx_mode(rctl, all_multicast) | 0x18 == rctl | 0x18,
{
    assert(((rctl | 0x10) & !0x8) & 0x10 != 0 && ((rctl | 0x10) & !0x8) & 0x8 == 0 && ((rctl
        & !0x10) & !0x8) & 0x10 == 0 && ((rctl & !0x10) & !0x8) & 0x8 == 0 && ((rctl | 0x10)
        & !0x8) | 0x18 == rctl | 0x18 && ((rctl & !0x10) & !0x8) | 0x18 == rctl | 0x18)
        by (bit_vector);
}

/// The registers of a receive address entry give the address back, and the entry is valid.
pub proof fn law_rar(mac_addr: [u8; 6])
    ensures
        mac_addr[0] == rar_low(mac_addr) % 0x100,
        mac_addr[1] == rar_low(mac_addr) / 0x100 % 0x100,
        mac_addr[2] == rar_low(mac_addr) / 0x1_0000 % 0x100,
        mac_addr[3] == rar_low(mac_addr) / 0x100_0000,
        mac_addr[4] == rar_high(mac_addr) % 0x100,
        mac_addr[5] == rar_high(mac_addr) / 0x100 % 0x100,
        rar_high(mac_addr) & 0x8000_0000 != 0,
        rar_high(mac_addr) / 0x1_0000 == 0x8000,
{
    lemma_rar(mac_addr);
    let (e, f) = (mac_addr[4], mac_addr[5]);
    assert((e as u32 | (f as u32) << 8 | 0x8000_0000u32) & 0x8000_0000u32 != 0) by (bit_vector);
}

/// Clearing the multicast table leaves all other registers alone.
pub proof fn law_table_alone(n: int, i: int)
    requires
        n <= E1000_MC_TBL_SIZE,
        0 <= i < clear_table(n).len(),
    ensures
        clear_table(n)[i] matches Action::Write { offset, value } ==> E1000_MTA <= offset
            < E1000_MTA + 4 * n,
    decreases n,
{
    if n > 0 {
        let before = clear_table(n - 1);
        if i < before.len() {
            law_table_alone(n - 1, i);
        }
    }
}

/// Emptying receive address entries leaves the first entry alone.
pub proof fn law_first_address_kept(n: int, i: int)
    requires
        n <= E1000_RAR_ENTRIES,
        0 <= i < clear_addresses(n).len(),
    ensures
        clear_addresses(n)[i] matches Action::Write { offset, value } ==> E1000_RA + 8 <= offset
            < E1000_RA + 8 * n,
    decreases n,
{
    if n > 1 {
        let before = clear_addresses(n - 1);
        if i < before.len() {
            law_first_address_kept(n - 1, i);
        } else {
            assert(clear_addresses(n)[i] == clear_address(n - 1)[i - before.len()]);
        }
    }
}

/// Emptying the address entries writes zero to both registers of each from the second on, and
/// nothing else.
pub proof fn law_addresses_emptied<Q, R>(n: int, reg: u32)
    requires
        1 <= n <= 15,
    ensures
        last_written(did::<Q, R>(clear_addresses(n)), reg) == if 0x5408 <= reg < 0x5400 + 8 * n
            && reg % 4 == 0 {
            Some(0u32)
        } else {
            None
        },
    decreases n,
{
    if n == 1 {
        lemma_not_written(did::<Q, R>(clear_addresses(n)), reg);
    } else {
        law_addresses_emptied::<Q, R>(n - 1, reg);
        let entry = did::<Q, R>(clear_address(n - 1));
        lemma_did_append::<Q, R>(clear_addresses(n - 1), clear_address(n - 1));
        lemma_last_written(did::<Q, R>(clear_addresses(n - 1)), entry, reg);
        if reg == 0x5400 + 8 * (n - 1) {
            lemma_last_at(entry, reg, 0);
        } else if reg == 0x5400 + 8 * (n - 1) + 4 {
            lemma_last_at(entry, reg, 2);
        } else {
            lemma_not_written(entry, reg);
        }
    }
}

/// Clearing the multicast table writes zero to each of its first `n` registers, and nothing else.
pub proof fn law_table_cleared<Q, R>(n: int, reg: u32)
    requires
        0 <= n <= 128,
    ensures
        last_written(did::<Q, R>(clear_table(n)), reg) == if 0x5200 <= reg < 0x5200 + 4 * n && reg
            % 4 == 0 {
            Some(0u32)
        } else {
            None
        },
    decreases n,
{
    if n == 0 {
        lemma_not_written(did::<Q, R>(clear_table(n)), reg);
    } else {
        law_table_cleared::<Q, R>(n - 1, reg);
        let entry = seq![clear(E1000_MTA + 4 * (n - 1)), flush()];
        lemma_did_append::<Q, R>(clear_table(n - 1), entry);
        lemma_last_written(did::<Q, R>(clear_table(n - 1)), did::<Q, R>(entry), reg);
        if reg == 0x5200 + 4 * (n - 1) {
            lemma_last_at(did::<Q, R>(entry), reg, 0);
        } else {
            lemma_not_written(did::<Q, R>(entry), reg);
        }
    }
}

/// The registers at four times the table's offset are cleared, `n` of them, and nothing else.
proof fn lemma_shifted_table_cleared<Q, R>(n: int, reg: u32)
    requires
        0 <= n <= 128,
    ensures
        last_written(did::<Q, R>(clear_shifted_table(n)), reg) == if 4 * 0x5200 <= reg < 4 * (0x5200
            + n) && reg % 4 == 0 {
            Some(0u32)
        } else {
            None
        },
    decreases n,
{
    if n == 0 {
        lemma_not_written(did::<Q, R>(clear_shifted_table(n)), reg);
    } else {
        lemma_shifted_table_cleared::<Q, R>(n - 1, reg);
        let entry = seq![clear(4 * (E1000_MTA + n - 1))];
        lemma_did_append::<Q, R>(entry, clear_shifted_table(n - 1));
        lemma_last_written(did::<Q, R>(entry), did::<Q, R>(clear_shifted_table(n - 1)), reg);
        if reg == 4 * (0x5200 + n - 1) {
            lemma_last_at(did::<Q, R>(entry), reg, 0);
        } else {
            lemma_not_written(did::<Q, R>(entry), reg);
        }
    }
}

/// Setting the receive mode of an interface that is not promiscuous and has no additional addresses
/// switches multicast promiscuity on just when the interface's all-multicast flag is set, whatever
/// its other flags are, and unicast promiscuity off. It empties the address entries but the first
/// and clears the 128 registers at four times the multicast table's offset. No other register is
/// written.
pub proof fn law_set_rx_mode<Q, R>(netdev: NetDevice, rctl: u32)
    requires
        netdev.flags & 0x100 == 0,
        netdev.uc_count == 0,
    ensures
        ({
            let (actions, step) = (SetRxMode { netdev }).next(rctl);
            let record = did::<Q, R>(actions);
            &&& (SetRxMode { netdev }).asks() == 0x100
            &&& step == Step::<SetRxMode, ()>::Done(())
            &&& actions == set_rx_mode_actions(netdev, rctl)
            &&& last_written(record, 0x100) matches Some(mode)
            &&& (mode & 0x10 != 0) == (netdev.flags & 0x200 != 0)
            &&& mode & 0x8 == 0
            &&& mode | 0x18 == rctl | 0x18
            &&& forall|reg: u32|
                reg != 0x100 ==> #[trigger] last_written(record, reg) == if reg % 4 == 0 && (0x5408
                    <= reg < 0x5478 || 0x1_4800 <= reg < 0x1_4A00) {
                    Some(0u32)
                } else {
                    None
                }
            &&& actions.last() == (Action::Read { offset: 8 })
        }),
{
    let actions = set_rx_mode_actions(netdev, rctl);
    let record = did::<Q, R>(actions);
    law_rx_mode(rctl, netdev.all_multicast());
    assert forall|reg: u32| #[trigger] last_written(record, reg) == if reg == 0x100 {
        Some(rx_mode(rctl, netdev.all_multicast()))
    } else if reg % 4 == 0 && (0x5408 <= reg < 0x5478 || 0x1_4800 <= reg < 0x1_4A00) {
        Some(0u32)
    } else {
        None
    } by {
        lemma_rx_mode_written::<Q, R>(netdev, rctl, reg);
    }
    assert(last_written(record, 0x100) is Some);
}

/// What setting the receive mode writes to each register.
proof fn lemma_rx_mode_written<Q, R>(netdev: NetDevice, rctl: u32, reg: u32)
    ensures
        last_written(did::<Q, R>(set_rx_mode_actions(netdev, rctl)), reg) == if reg == 0x100 {
            Some(rx_mode(rctl, netdev.all_multicast()))
        } else if reg % 4 == 0 && (0x5408 <= reg < 0x5478 || 0x1_4800 <= reg < 0x1_4A00) {
            Some(0u32)
        } else {
            None
        },
{
    let a = seq![reg_write(E1000_RCTL, rx_mode(rctl, netdev.all_multicast()))];
    let b = clear_addresses(E1000_RAR_ENTRIES as int);
    let c = clear_shifted_table(E1000_NUM_MTA_REGISTERS as int);
    let d = seq![flush()];
    lemma_did_append::<Q, R>(a, b);
    lemma_did_append::<Q, R>(a + b, c);
    lemma_did_append::<Q, R>(a + b + c, d);
    lemma_last_written(did::<Q, R>(a), did::<Q, R>(b), reg);
    lemma_last_written(did::<Q, R>(a + b), did::<Q, R>(c), reg);
    lemma_last_written(did::<Q, R>(a + b + c), did::<Q, R>(d), reg);
    law_addresses_emptied::<Q, R>(15, reg);
    lemma_shifted_table_cleared::<Q, R>(128, reg);
    lemma_not_written(did::<Q, R>(d), reg);
    if reg == 0x100 {
        lemma_last_at(did::<Q, R>(a), reg, 0);
    } else {
        lemma_not_written(did::<Q, R>(a), reg);
    }
}

/// A promiscuous interface is a fault, and so is one with additional addresses, before anything is
/// done.
pub proof fn law_filter_refused(netdev: NetDevice, rctl: u32)
    requires
        netdev.flags & 0x100 != 0 || netdev.uc_count != 0,
    ensures
        (SetRxMode { netdev }).next(rctl) == (
            Seq::<Action>::empty(),
            Step::<SetRxMode, ()>::Fault(
                if netdev.flags & 0x100 != 0 {
                    Fault::Promiscuous
                } else {
                    Fault::UnicastFilter
                },
            ),
        ),
{
}

/// An address entry holds the address given to it, in two registers, and is valid; no other
/// register is written.
pub proof fn law_rar_set<Q, R>(mac_addr: [u8; 6], index: u32)
    requires
        index < 0x1000,
    ensures
        ({
            let record = did::<Q, R>(rar_set_actions(mac_addr, index));
            &&& last_written(record, (0x5400 + 8 * index) as u32) matches Some(low)
            &&& last_written(record, (0x5404 + 8 * index) as u32) matches Some(high)
            &&& mac_addr[0] == low % 0x100
            &&& mac_addr[1] == low / 0x100 % 0x100
            &&& mac_addr[2] == low / 0x1_0000 % 0x100
            &&& mac_addr[3] == low / 0x100_0000
            &&& mac_addr[4] == high % 0x100
            &&& mac_addr[5] == high / 0x100 % 0x100
            &&& high / 0x1_0000 == 0x8000
            &&& forall|reg: u32|
                #[trigger] last_written(record, reg) is Some ==> reg == 0x5400 + 8 * index || reg
                    == 0x5404 + 8 * index
        }),
{
    let record = did::<Q, R>(rar_set_actions(mac_addr, index));
    lemma_entry(index);
    law_rar(mac_addr);
    lemma_last_at(record, (0x5400 + 8 * index) as u32, 0);
    lemma_last_at(record, (0x5404 + 8 * index) as u32, 2);
    assert forall|reg: u32| #[trigger] last_written(record, reg) is Some implies reg == 0x5400 + 8
        * index || reg == 0x5404 + 8 * index by {
        if !(reg == 0x5400 + 8 * index || reg == 0x5404 + 8 * index) {
            lemma_not_written(record, reg);
        }
    }
}

/// Each of the `4 * (n - 1)` steps of emptying the address entries is a write of zero or, after
/// each write, what forces it out to the device.
pub proof fn law_addresses_flushed(n: int, i: int)
    requires
        1 <= n <= 15,
    ensures
        clear_addresses(n).len() == 4 * (n - 1),
        0 <= i < 4 * (n - 1) ==> clear_addresses(n)[i] == if i % 2 == 0 {
            Action::Write { offset: (0x5408 + 2 * i) as usize, value: 0 }
        } else {
            Action::Read { offset: 8 }
        },
    decreases n,
{
    if n > 1 {
        law_addresses_flushed(n - 1, i);
        let before = clear_addresses(n - 1);
        if before.len() <= i < before.len() + 4 {
            assert(clear_addresses(n)[i] == clear_address(n - 1)[i - before.len()]);
        }
    }
}

/// Each of the `2 * n` steps of clearing the multicast table is a write of zero or, after each
/// write, what forces it out to the device.
pub proof fn law_table_flushed(n: int, i: int)
    requires
        0 <= n <= 128,
    ensures
        clear_table(n).len() == 2 * n,
        0 <= i < 2 * n ==> clear_table(n)[i] == if i % 2 == 0 {
            Action::Write { offset: (0x5200 + 2 * i) as usize, value: 0 }
        } else {
            Action::Read { offset: 8 }
        },
    decreases n,
{
    if n > 0 {
        law_table_flushed(n - 1, i);
    }
}

/// The registers at four times the multicast table's offset are cleared from the last down to the
/// first, one after the other.
pub proof fn law_shifted_table_down(n: int, i: int)
    requires
        0 <= n <= 128,
    ensures
        clear_shifted_table(n).len() == n,
        0 <= i < n ==> clear_shifted_table(n)[i] == (Action::Write {
            offset: (4 * (0x5200 + n - 1 - i)) as usize,
            value: 0,
        }),
    decreases n,
{
    if n > 0 {
        law_shifted_table_down(n - 1, i - 1);
        law_shifted_table_down(n - 1, i);
    }
}

/// The receive mode is written first; then the address entries are emptied, the registers at four
/// times the table's offset cleared, and all of it forced out to the device.
pub proof fn law_rx_mode_order(netdev: NetDevice, rctl: u32)
    ensures
        set_rx_mode_actions(netdev, rctl).len() == 1 + 4 * 14 + 128 + 1,
        set_rx_mode_actions(netdev, rctl) == seq![
            Action::Write { offset: 0x100, value: rx_mode(rctl, netdev.all_multicast()) },
        ] + clear_addresses(15) + clear_shifted_table(128) + seq![Action::Read { offset: 8 }],
{
    law_addresses_flushed(15, 0);
    law_shifted_table_down(128, 0);
}

/// Both registers of an address entry are forced out to the device as they are written, and the low
/// one comes first. The adapter's own entry is the first, and is set before the others are emptied.
pub proof fn law_rar_flushed(mac_addr: [u8; 6], index: u32)
    ensures
        rar_set_actions(mac_addr, index).len() == 4,
        rar_set_actions(mac_addr, index)[0] == (Action::Write {
            offset: (0x5400 + (8 * index) % 0x1_0000_0000) as usize,
            value: rar_low(mac_addr),
        }),
        rar_set_actions(mac_addr, index)[1] == (Action::Read { offset: 8 }),
        rar_set_actions(mac_addr, index)[2] == (Action::Write {
            offset: (0x5404 + (8 * index) % 0x1_0000_0000) as usize,
            value: rar_high(mac_addr),
        }),
        rar_set_actions(mac_addr, index)[3] == (Action::Read { offset: 8 }),
        init_rx_addrs_actions(mac_addr) == rar_set_actions(mac_addr, 0) + clear_addresses(15),
{
    lemma_entry(index);
}

} // verus!
