//! A model of the PHY at the other end of the management wires, and what the driver reads from it
//! and writes to it.

use vstd::arithmetic::power2::lemma2_to64;
use vstd::prelude::*;
use crate::bits::{bit_of, lemma_next_bit, lemma_set_clear, lemma_within, number, shifted};
use crate::defs::{
    E1000_CTRL, E1000_CTRL_MDC, E1000_CTRL_MDC_DIR, E1000_CTRL_MDIO, E1000_CTRL_MDIO_DIR,
    PHY_PREAMBLE, PHY_PREAMBLE_SIZE,
};
use crate::eeprom::chip::{lemma_number, low_bits};
use crate::phy::{
    PowerUpPhy, ReadPhyPhase, ReadPhyReg, ShiftInMdiBits, WritePhyReg, law_phy_read_command,
    law_phy_write_command, law_powered_up, mdi_clock_out, mdi_driven, mdi_hold, mdi_pulse,
    mdi_sampled, phy_read_command, phy_write_actions, power_up_phy, powered_up, read_phy_reg,
    with_mdio,
};
use crate::protocol::{Action, Fault, Protocol, Step};
use crate::resource::{flush, reg_write};

verus! {

/// A PHY on the management wires.
pub struct Phy {
    /// The registers that the PHY holds.
    pub regs: Seq<u16>,
    /// What the adapter's control register holds: bit 20 is the data wire, bit 21 the clock, and
    /// bits 24 and 25 tell whether the adapter drives them.
    pub ctrl: u32,
    /// The bits that the PHY has seen.
    pub seen: Seq<bool>,
    /// Rises of the clock since the adapter let go of the data wire.
    pub turned: nat,
    /// What the adapter's register for commands to the PHY reads as.
    pub mdic: u32,
}

/// The register that a PHY is asked for when it has seen `seen`: 32 ones, start and read operation,
/// the number of the first PHY, and the number of the register.
pub open spec fn asked(seen: Seq<bool>) -> Option<int> {
    let n = seen.len();
    let command = number(seen.skip(n - 14)) as int;
    if n >= 46 && (forall|i: int| n - 46 <= i < n - 14 ==> #[trigger] seen[i]) && command / 0x20
        == 0b01_10_00001 {
        Some(command % 0x20)
    } else {
        None
    }
}

impl Phy {
    /// The PHY after the control register has become `value`. A bit is seen when the clock rises
    /// while the adapter drives both wires.
    pub open spec fn driven(self, value: u32) -> Phy {
        let rises = value & 0x20_0000 != 0 && value & 0x200_0000 != 0 && self.ctrl & 0x20_0000 == 0;
        let drives = value & 0x100_0000 != 0;
        Phy {
            ctrl: value,
            seen: if rises && drives {
                self.seen.push(value & 0x10_0000 != 0)
            } else {
                self.seen
            },
            turned: if !rises {
                self.turned
            } else if drives {
                0
            } else {
                self.turned + 1
            },
            ..self
        }
    }

    /// The PHY after a command through the adapter's register: a write operation for the first PHY
    /// changes the register named to the word named.
    pub open spec fn commanded(self, value: u32) -> Phy {
        if value / 0x400_0000 == 1 && (value / 0x20_0000) % 0x20 == 1 {
            Phy {
                regs: self.regs.update(
                    ((value / 0x1_0000) % 0x20) as int,
                    (value % 0x1_0000) as u16,
                ),
                ..self
            }
        } else {
            self
        }
    }

    /// The level that the PHY puts on the data wire: after a read command and one clock to turn the
    /// wire round, each clock brings the next bit of the register asked for, highest first.
    /// Otherwise the wire is high.
    pub open spec fn answer(self) -> bool {
        match asked(self.seen) {
            Some(reg) => if 2 <= self.turned <= 17 {
                bit_of(self.regs[reg] as u32, 17 - self.turned)
            } else {
                true
            },
            None => true,
        }
    }

    /// What the register `reg` of the adapter reads as. Only two of them have to do with the PHY.
    pub open spec fn register(self, reg: u32) -> u32 {
        if reg == 0x20 {
            self.mdic
        } else if reg != 0 {
            0
        } else if self.ctrl & 0x100_0000 != 0 {
            self.ctrl
        } else if self.answer() {
            self.ctrl | 0x10_0000
        } else {
            self.ctrl & !0x10_0000
        }
    }

    /// The PHY after `action`.
    pub open spec fn acted(self, action: Action) -> Phy {
        match action {
            Action::Write { offset, value } => if offset == 0 {
                self.driven(value)
            } else if offset == 0x20 {
                self.commanded(value)
            } else {
                self
            },
            _ => self,
        }
    }

    /// The PHY after `actions`.
    pub open spec fn after(self, actions: Seq<Action>) -> Phy
        decreases actions.len(),
    {
        if actions.len() == 0 {
            self
        } else {
            self.after(actions.drop_last()).acted(actions.last())
        }
    }
}

/// The conversation of a procedure that starts in state `p` with the PHY `phy`, for `n` questions:
/// the PHY at its end, and where the procedure stands.
pub open spec fn talk<P: Protocol<Request = u32, Reply = u32>>(p: P, phy: Phy, n: nat) -> (
    Phy,
    Step<P, P::Result>,
)
    decreases n,
{
    if n == 0 {
        (phy, Step::Wait(p))
    } else {
        let (actions, step) = p.next(phy.register(p.asks()));
        match step {
            Step::Wait(q) => talk(q, phy.after(actions), (n - 1) as nat),
            end => (phy.after(actions), end),
        }
    }
}

proof fn lemma_after_append(phy: Phy, a: Seq<Action>, b: Seq<Action>)
    ensures
        phy.after(a + b) == phy.after(a).after(b),
    decreases b.len(),
{
    if b.len() == 0 {
        assert(a + b =~= a);
    } else {
        assert((a + b).drop_last() =~= a + b.drop_last());
        lemma_after_append(phy, a, b.drop_last());
    }
}

proof fn lemma_after_hold(phy: Phy, ctrl: u32)
    ensures
        phy.after(mdi_hold(ctrl)) == phy.driven(ctrl),
        phy.after(seq![reg_write(E1000_CTRL, ctrl), flush()]) == phy.driven(ctrl),
{
    reveal_with_fuel(Phy::after, 4);
    let held = mdi_hold(ctrl);
    assert(held.drop_last().drop_last().drop_last() =~= seq![]);
    let short = seq![reg_write(E1000_CTRL, ctrl), flush()];
    assert(short.drop_last().drop_last() =~= seq![]);
}

/// What the driver's changes to the control register do to the management bits.
proof fn lemma_management(x: u32)
    ensures
        (x | 0x20_0000) & 0x20_0000 != 0,
        (x | 0x20_0000) & 0x10_0000 == x & 0x10_0000,
        (x | 0x20_0000) & 0x100_0000 == x & 0x100_0000,
        (x | 0x20_0000) & 0x200_0000 == x & 0x200_0000,
        (x & !0x20_0000) & 0x20_0000 == 0,
        (x & !0x20_0000) & 0x10_0000 == x & 0x10_0000,
        (x & !0x20_0000) & 0x100_0000 == x & 0x100_0000,
        (x & !0x20_0000) & 0x200_0000 == x & 0x200_0000,
        (x | 0x10_0000) & 0x10_0000 != 0,
        (x | 0x10_0000) & 0x20_0000 == x & 0x20_0000,
        (x | 0x10_0000) & 0x100_0000 == x & 0x100_0000,
        (x | 0x10_0000) & 0x200_0000 == x & 0x200_0000,
        (x & !0x10_0000) & 0x10_0000 == 0,
        (x & !0x10_0000) & 0x20_0000 == x & 0x20_0000,
        (x & !0x10_0000) & 0x100_0000 == x & 0x100_0000,
        (x & !0x10_0000) & 0x200_0000 == x & 0x200_0000,
        (x & !0x100_0000) & 0x100_0000 == 0,
        (x & !0x100_0000) & 0x20_0000 == x & 0x20_0000,
        (x & !0x100_0000) & 0x200_0000 == x & 0x200_0000,
        mdi_driven(x) & 0x100_0000 != 0,
        mdi_driven(x) & 0x200_0000 != 0,
        mdi_driven(x) & 0x20_0000 == x & 0x20_0000,
        mdi_driven(x) | 0x330_0000 == x | 0x330_0000,
        (x | 0x20_0000) | 0x330_0000 == x | 0x330_0000,
        (x & !0x20_0000) | 0x330_0000 == x | 0x330_0000,
        (x | 0x10_0000) | 0x330_0000 == x | 0x330_0000,
        (x & !0x10_0000) | 0x330_0000 == x | 0x330_0000,
        (x & !0x100_0000) | 0x330_0000 == x | 0x330_0000,
{
    assert(0x20_0000u32 & 0x10_0000 == 0 && 0x20_0000u32 & 0x100_0000 == 0 && 0x20_0000u32
        & 0x200_0000 == 0 && 0x10_0000u32 & 0x20_0000 == 0 && 0x10_0000u32 & 0x100_0000 == 0
        && 0x10_0000u32 & 0x200_0000 == 0 && 0x100_0000u32 & 0x20_0000 == 0 && 0x100_0000u32
        & 0x200_0000 == 0 && 0x200_0000u32 & 0x100_0000 == 0 && 0x200_0000u32 & 0x20_0000 == 0
        && 0x20_0000u32 | 0x330_0000 == 0x330_0000 && 0x10_0000u32 | 0x330_0000 == 0x330_0000
        && 0x100_0000u32 | 0x330_0000 == 0x330_0000 && (0x100_0000u32 | 0x200_0000u32) | 0x330_0000
        == 0x330_0000 && (x | (0x100_0000u32 | 0x200_0000u32)) & 0x100_0000 != 0 && (x | (
    0x100_0000u32 | 0x200_0000u32)) & 0x200_0000 != 0 && (x | (0x100_0000u32 | 0x200_0000u32))
        & 0x20_0000 == x & 0x20_0000) by (bit_vector);
    lemma_set_clear(x, 0x20_0000, 0x10_0000);
    lemma_set_clear(x, 0x20_0000, 0x100_0000);
    lemma_set_clear(x, 0x20_0000, 0x200_0000);
    lemma_set_clear(x, 0x10_0000, 0x20_0000);
    lemma_set_clear(x, 0x10_0000, 0x100_0000);
    lemma_set_clear(x, 0x10_0000, 0x200_0000);
    lemma_set_clear(x, 0x100_0000, 0x20_0000);
    lemma_set_clear(x, 0x100_0000, 0x200_0000);
    lemma_within(x, 0x20_0000, 0x330_0000);
    lemma_within(x, 0x10_0000, 0x330_0000);
    lemma_within(x, 0x100_0000, 0x330_0000);
    lemma_within(x, E1000_CTRL_MDIO_DIR | E1000_CTRL_MDC_DIR, 0x330_0000);
}

/// The low `n` bits of `data`, highest first.
pub open spec fn wire_bits(data: u32, n: nat) -> Seq<bool> {
    Seq::new(n, |i: int| bit_of(data, n - 1 - i))
}

/// Bits shifted out from a low clock, with both wires driven, are just the bits that the PHY sees.
/// The clock is low again afterwards, and both wires are still driven.
pub proof fn law_phy_sees(phy: Phy, ctrl: u32, data: u32, n: nat)
    requires
        phy.ctrl & 0x20_0000 == 0,
        ctrl & 0x20_0000 == 0,
        ctrl & 0x100_0000 != 0,
        ctrl & 0x200_0000 != 0,
        1 <= n <= 32,
    ensures
        ({
            let end = phy.after(mdi_clock_out(ctrl, data, n));
            &&& end.seen == phy.seen + wire_bits(data, n)
            &&& end.turned == 0
            &&& end.ctrl & 0x20_0000 == 0
            &&& end.ctrl & 0x100_0000 != 0
            &&& end.ctrl & 0x200_0000 != 0
            &&& end.regs == phy.regs
            &&& end.mdic == phy.mdic
        }),
    decreases n,
{
    let bit = bit_of(data, n - 1);
    let level = with_mdio(ctrl, bit);
    let high = level | E1000_CTRL_MDC;
    let low = level & !E1000_CTRL_MDC;
    let rest = mdi_clock_out(level, data, (n - 1) as nat);
    lemma_management(ctrl);
    lemma_management(level);
    let a = mdi_hold(level);
    let b = mdi_hold(high);
    let c = mdi_hold(low);
    assert(mdi_clock_out(ctrl, data, n) =~= a + (b + c) + rest);
    lemma_after_append(phy, a + (b + c), rest);
    lemma_after_append(phy, a, b + c);
    lemma_after_append(phy.after(a), b, c);
    let p1 = phy.driven(level);
    let p2 = p1.driven(high);
    let p3 = p2.driven(low);
    lemma_after_hold(phy, level);
    lemma_after_hold(p1, high);
    lemma_after_hold(p2, low);
    assert(p3.seen == phy.seen.push(bit));
    if n == 1 {
        assert(rest =~= seq![]);
        assert(phy.seen.push(bit) =~= phy.seen + wire_bits(data, n));
    } else {
        law_phy_sees(p3, level, data, (n - 1) as nat);
        assert(phy.seen.push(bit) + wire_bits(data, (n - 1) as nat) =~= phy.seen + wire_bits(
            data,
            n,
        ));
    }
}

/// What an action does to the adapter when `held` was in the control register: no register but that
/// one is written, and none of its bits but those of the management wires is changed.
pub open spec fn wires_only(held: u32, action: Action) -> bool {
    action matches Action::Write { offset, value } ==> offset == 0 && value | 0x330_0000 == held
        | 0x330_0000
}

/// Both management wires are driven, where the control register is written.
pub open spec fn wires_driven(action: Action) -> bool {
    action matches Action::Write { value, .. } ==> value & 0x300_0000 == 0x300_0000
}

proof fn lemma_driven(x: u32)
    ensures
        (x & 0x100_0000 != 0 && x & 0x200_0000 != 0) <==> x & 0x300_0000 == 0x300_0000,
{
    assert((x & 0x100_0000 != 0 && x & 0x200_0000 != 0) <==> x & 0x300_0000 == 0x300_0000)
        by (bit_vector);
}

proof fn lemma_wires_driven(held: u32, ctrl: u32, data: u32, n: nat, i: int)
    requires
        ctrl & 0x100_0000 != 0,
        ctrl & 0x200_0000 != 0,
        ctrl | 0x330_0000 == held | 0x330_0000,
        0 <= i < mdi_clock_out(ctrl, data, n).len(),
    ensures
        wires_driven(mdi_clock_out(ctrl, data, n)[i]),
        wires_only(held, mdi_clock_out(ctrl, data, n)[i]),
    decreases n,
{
    if n > 0 {
        let level = with_mdio(ctrl, bit_of(data, n - 1));
        let pulse = mdi_hold(level) + mdi_pulse(level);
        let rest = mdi_clock_out(level, data, (n - 1) as nat);
        lemma_management(ctrl);
        lemma_management(level);
        if i < pulse.len() {
            assert(mdi_clock_out(ctrl, data, n)[i] == pulse[i]);
            lemma_driven(level);
            lemma_driven(level | E1000_CTRL_MDC);
            lemma_driven(level & !E1000_CTRL_MDC);
        } else {
            lemma_wires_driven(held, level, data, (n - 1) as nat, i - pulse.len());
            assert(mdi_clock_out(ctrl, data, n)[i] == rest[i - pulse.len()]);
        }
    }
}

/// Whatever the control register held, both wires are driven in every write while bits are shifted
/// out to the PHY. No other register is written, and no other bit is changed.
pub proof fn law_wires_driven(held: u32, data: u32, n: nat, i: int)
    requires
        0 <= i < mdi_clock_out(mdi_driven(held), data, n).len(),
    ensures
        wires_driven(mdi_clock_out(mdi_driven(held), data, n)[i]),
        wires_only(held, mdi_clock_out(mdi_driven(held), data, n)[i]),
{
    lemma_management(held);
    lemma_wires_driven(held, mdi_driven(held), data, n, i);
}

/// Whatever the control register holds when a register of the PHY is being read, no other register
/// is written, and no bits but those of the management wires are changed. Until the answer is
/// awaited, both wires are driven in every write.
pub proof fn law_phy_read_wires(read: ReadPhyReg, held: u32, i: int)
    requires
        0 <= i < read.next(held).0.len(),
    ensures
        wires_only(held, read.next(held).0[i]),
        !(read.phase is ShiftIn) ==> wires_driven(read.next(held).0[i]),
{
    match read.phase {
        ReadPhyPhase::Preamble => law_wires_driven(held, PHY_PREAMBLE, 32, i),
        ReadPhyPhase::Command => law_wires_driven(held, phy_read_command(read.reg_addr), 14, i),
        ReadPhyPhase::ShiftIn(_) => {
            let input = held & !E1000_CTRL_MDIO_DIR;
            lemma_management(held);
            lemma_management(input);
            lemma_management(input & !E1000_CTRL_MDIO);
        },
    }
}

/// Each level of the management wires is forced out to the device and then held, before anything
/// else, while bits are shifted out.
pub proof fn law_mdi_held(ctrl: u32, data: u32, n: nat, i: int)
    requires
        0 <= i < mdi_clock_out(ctrl, data, n).len(),
    ensures
        mdi_clock_out(ctrl, data, n).len() == 9 * n,
        i % 3 == 0 ==> mdi_clock_out(ctrl, data, n)[i] is Write,
        i % 3 == 1 ==> mdi_clock_out(ctrl, data, n)[i] == (Action::Read { offset: 8 }),
        i % 3 == 2 ==> mdi_clock_out(ctrl, data, n)[i] == Action::ConstUdelay(10),
    decreases n,
{
    lemma_mdi_length(ctrl, data, n);
    if n > 0 {
        let level = with_mdio(ctrl, bit_of(data, n - 1));
        let pulse = mdi_hold(level) + mdi_pulse(level);
        let rest = mdi_clock_out(level, data, (n - 1) as nat);
        if i < pulse.len() {
            assert(mdi_clock_out(ctrl, data, n)[i] == pulse[i]);
        } else {
            law_mdi_held(level, data, (n - 1) as nat, i - 9);
            assert(mdi_clock_out(ctrl, data, n)[i] == rest[i - 9]);
        }
    }
}

proof fn lemma_mdi_length(ctrl: u32, data: u32, n: nat)
    ensures
        mdi_clock_out(ctrl, data, n).len() == 9 * n,
    decreases n,
{
    if n > 0 {
        lemma_mdi_length(with_mdio(ctrl, bit_of(data, n - 1)), data, (n - 1) as nat);
    }
}

/// The PHY is asked for the register named when it has seen preamble and command.
proof fn lemma_asked(seen: Seq<bool>, reg_addr: u32)
    requires
        reg_addr <= 0x1F,
    ensures
        asked(
            seen + wire_bits(PHY_PREAMBLE, 32) + wire_bits(phy_read_command(reg_addr), 14),
        ) == Some(reg_addr as int),
        wire_bits(PHY_PREAMBLE, 32) == Seq::new(32, |i: int| true),
        wire_bits(phy_read_command(reg_addr), 14) == wire_bits((0x1820 + reg_addr) as u32, 14),
{
    law_phy_read_command(reg_addr);
    let command = phy_read_command(reg_addr);
    let all = seen + wire_bits(PHY_PREAMBLE, 32) + wire_bits(command, 14);
    let n = all.len();
    assert forall|k: u32| k < 32 implies #[trigger] bit_of(0xffff_ffff, k as int) by {
        assert(k < 32 ==> (0xffff_ffffu32 >> k) & 1 == 1) by (bit_vector);
    }
    assert forall|i: int| 0 <= i < 32 implies #[trigger] wire_bits(PHY_PREAMBLE, 32)[i] by {
        let k = (31 - i) as u32;
        assert(bit_of(0xffff_ffff, k as int));
    }
    assert(wire_bits(PHY_PREAMBLE, 32) =~= Seq::new(32, |i: int| true));
    assert forall|i: int| n - 46 <= i < n - 14 implies #[trigger] all[i] by {
        assert(all[i] == wire_bits(PHY_PREAMBLE, 32)[i - (n - 46)]);
    }
    let word = command as u16;
    assert(all.skip(n - 14) =~= low_bits(word, 14));
    lemma2_to64();
    lemma_number(word, 14);
}

/// Preamble and command go out, and the data wire is handed over: the PHY is about to be sampled
/// for the first time.
proof fn lemma_asking(phy: Phy, reg_addr: u32, more: nat) -> (end: Phy)
    requires
        phy.ctrl & 0x20_0000 == 0,
        reg_addr <= 0x1F,
    ensures
        talk(read_phy_reg(reg_addr), phy, 3 + more) == talk(
            ReadPhyReg {
                reg_addr,
                phase: ReadPhyPhase::ShiftIn(ShiftInMdiBits::Sample { data: 0, left: 16 }),
            },
            end,
            more,
        ),
        end.seen == phy.seen + wire_bits(PHY_PREAMBLE, 32) + wire_bits(
            phy_read_command(reg_addr),
            14,
        ),
        end.turned == 2,
        end.ctrl & 0x20_0000 != 0,
        end.ctrl & 0x100_0000 == 0,
        end.ctrl & 0x200_0000 != 0,
        end.regs == phy.regs,
        end.mdic == phy.mdic,
{
    let start = read_phy_reg(reg_addr);
    let p1 = ReadPhyReg { reg_addr, phase: ReadPhyPhase::Command };
    let p2 = ReadPhyReg { reg_addr, phase: ReadPhyPhase::ShiftIn(ShiftInMdiBits::Start) };
    let p3 = ReadPhyReg {
        reg_addr,
        phase: ReadPhyPhase::ShiftIn(ShiftInMdiBits::Sample { data: 0, left: 16 }),
    };
    // The preamble.
    let r0 = phy.register(0);
    lemma_management(phy.ctrl);
    lemma_management(r0);
    law_phy_sees(phy, mdi_driven(r0), PHY_PREAMBLE, 32);
    let c1 = phy.after(mdi_clock_out(mdi_driven(r0), PHY_PREAMBLE, PHY_PREAMBLE_SIZE as nat));
    // The command.
    let r1 = c1.register(0);
    lemma_management(r1);
    let command = phy_read_command(reg_addr);
    law_phy_sees(c1, mdi_driven(r1), command, 14);
    let c2 = c1.after(mdi_clock_out(mdi_driven(r1), command, 14));
    // The data wire is handed over.
    let r2 = c2.register(0);
    let input = r2 & !E1000_CTRL_MDIO_DIR;
    let idle = input & !E1000_CTRL_MDIO;
    let high = idle | E1000_CTRL_MDC;
    let low = idle & !E1000_CTRL_MDC;
    lemma_management(r2);
    lemma_management(input);
    lemma_management(idle);
    let a = seq![reg_write(E1000_CTRL, idle), flush()];
    let (b, c) = (mdi_hold(high), mdi_hold(low));
    let d1 = c2.driven(idle);
    let d2 = d1.driven(high);
    let d3 = d2.driven(low);
    let d4 = d3.driven(high);
    lemma_after_append(c2, a + (b + c), b);
    lemma_after_append(c2, a, b + c);
    lemma_after_append(c2.after(a), b, c);
    lemma_after_hold(c2, idle);
    lemma_after_hold(d1, high);
    lemma_after_hold(d2, low);
    lemma_after_hold(d3, high);
    assert(p2.next(r2).0 == a + (b + c) + b);
    assert(talk(p2, c2, 1 + more) == talk(p3, d4, more));
    assert(talk(p1, c1, 2 + more) == talk(p2, c2, 1 + more));
    assert(talk(start, phy, 3 + more) == talk(p1, c1, 2 + more));
    d4
}

/// The word comes in, with `left` bits to go.
proof fn lemma_answering(phy: Phy, reg_addr: u32, word: u16, left: u16)
    requires
        1 <= left <= 16,
        phy.turned == 18 - left,
        phy.ctrl & 0x20_0000 != 0,
        phy.ctrl & 0x100_0000 == 0,
        phy.ctrl & 0x200_0000 != 0,
        asked(phy.seen) matches Some(reg) && phy.regs[reg] == word,
    ensures
        ({
            let p = ReadPhyReg {
                reg_addr,
                phase: ReadPhyPhase::ShiftIn(
                    ShiftInMdiBits::Sample { data: word >> left, left },
                ),
            };
            let (end, step) = talk(p, phy, left as nat);
            &&& step == Step::<ReadPhyReg, u16>::Done(word)
            &&& end.seen == phy.seen
            &&& end.regs == phy.regs
            &&& end.mdic == phy.mdic
            &&& end.ctrl & 0x20_0000 == 0
            &&& talk(p, phy, (left - 1) as nat).1 is Wait
        }),
    decreases left,
{
    let p = ReadPhyReg {
        reg_addr,
        phase: ReadPhyPhase::ShiftIn(ShiftInMdiBits::Sample { data: word >> left, left }),
    };
    let r = phy.register(0);
    let low = r & !E1000_CTRL_MDC;
    let high = r | E1000_CTRL_MDC;
    lemma_management(phy.ctrl);
    lemma_management(r);
    lemma_next_bit(word, left);
    let down = (left - 1) as u16;
    assert(mdi_sampled(r) == bit_of(word as u32, left - 1));
    assert(shifted(word >> left, mdi_sampled(r)) == word >> down);
    let (a, b) = (mdi_hold(low), mdi_hold(high));
    let d1 = phy.driven(low);
    let d2 = d1.driven(high);
    lemma_after_append(phy, a, b);
    lemma_after_hold(phy, low);
    lemma_after_hold(d1, high);
    if left == 1 {
        let d3 = d2.driven(low);
        lemma_after_append(phy, a, b + a);
        lemma_after_append(d1, b, a);
        lemma_after_hold(d2, low);
        assert(p.next(r).0 == a + (b + a));
        assert(talk(p, phy, 1) == (d3, Step::<ReadPhyReg, u16>::Done(word)));
    } else {
        let q = ReadPhyReg {
            reg_addr,
            phase: ReadPhyPhase::ShiftIn(ShiftInMdiBits::Sample { data: word >> down, left: down }),
        };
        assert(p.next(r) == (a + b, Step::<ReadPhyReg, u16>::Wait(q)));
        lemma_answering(d2, reg_addr, word, down);
        assert(talk(p, phy, left as nat) == talk(q, d2, down as nat));
        assert(talk(p, phy, (left - 1) as nat) == talk(q, d2, (down - 1) as nat));
    }
}

/// The driver's questions while it reads a register of the PHY.
pub open spec fn phy_questions() -> nat {
    19
}

/// Reading a register of the PHY from a low clock gives the word that the PHY holds there. In all
/// of it the PHY sees 32 ones and the command for that register, and it is left unchanged.
pub proof fn law_phy_read(phy: Phy, reg_addr: u32)
    requires
        phy.ctrl & 0x20_0000 == 0,
        reg_addr <= 0x1F,
    ensures
        ({
            let (end, step) = talk(read_phy_reg(reg_addr), phy, phy_questions());
            &&& step == Step::<ReadPhyReg, u16>::Done(phy.regs[reg_addr as int])
            &&& end.seen == phy.seen + Seq::new(32, |i: int| true) + wire_bits(
                (0x1820 + reg_addr) as u32,
                14,
            )
            &&& end.regs == phy.regs
            &&& end.mdic == phy.mdic
            &&& talk(read_phy_reg(reg_addr), phy, (phy_questions() - 1) as nat).1 is Wait
        }),
{
    let word = phy.regs[reg_addr as int];
    lemma_asked(phy.seen, reg_addr);
    lemma_next_bit(word, 16);
    let end = lemma_asking(phy, reg_addr, 16);
    lemma_answering(end, reg_addr, word, 16);
    let end = lemma_asking(phy, reg_addr, 15);
    lemma_answering(end, reg_addr, word, 16);
}

/// A conversation inside a larger procedure that does nothing of its own meanwhile.
proof fn lemma_talk_inside(a: ReadPhyReg, phy: Phy, n: nat, more: nat)
    ensures
        talk(a, phy, n).1 matches Step::Wait(b) ==> talk(PowerUpPhy::Read(a), phy, n + more)
            == talk(PowerUpPhy::Read(b), talk(a, phy, n).0, more),
    decreases n,
{
    if n > 0 {
        let (actions, step) = a.next(phy.register(a.asks()));
        if let Step::Wait(q) = step {
            lemma_talk_inside(q, phy.after(actions), (n - 1) as nat, more);
        }
    }
}

/// The last question of a conversation.
proof fn lemma_talk_last(a: ReadPhyReg, phy: Phy, n: nat)
    requires
        talk(a, phy, n).1 is Wait,
    ensures
        talk(a, phy, n + 1) == talk(talk(a, phy, n).1->Wait_0, talk(a, phy, n).0, 1),
    decreases n,
{
    if n > 0 {
        let (actions, step) = a.next(phy.register(a.asks()));
        if let Step::Wait(q) = step {
            lemma_talk_last(q, phy.after(actions), (n - 1) as nat);
        }
    }
}

/// The command to write a register changes that register of the PHY to the word given.
pub proof fn law_phy_written(phy: Phy, reg_addr: u32, phy_data: u16)
    requires
        reg_addr <= 0x1F,
    ensures
        phy.after(phy_write_actions(reg_addr, phy_data)) == (Phy {
            regs: phy.regs.update(reg_addr as int, phy_data),
            ..phy
        }),
{
    law_phy_write_command(reg_addr, phy_data);
    reveal_with_fuel(Phy::after, 3);
    let actions = phy_write_actions(reg_addr, phy_data);
    assert(actions.drop_last().drop_last() =~= seq![]);
    let value = 0x0400_0000 + 0x20_0000 + reg_addr * 0x1_0000 + phy_data;
    assert(value / 0x400_0000 == 1 && (value / 0x20_0000) % 0x20 == 1 && (value / 0x1_0000) % 0x20
        == reg_addr && value % 0x1_0000 == phy_data);
}

/// Powering the PHY up from a low clock clears the power-down bit of its control register, register
/// 0, and changes nothing else in the PHY. It succeeds just when the adapter then reports itself
/// ready.
pub proof fn law_phy_powered_up(phy: Phy)
    requires
        phy.ctrl & 0x20_0000 == 0,
        phy.regs.len() > 0,
    ensures
        ({
            let (end, step) = talk(power_up_phy(), phy, phy_questions() + 1);
            &&& end.regs == phy.regs.update(0, end.regs[0])
            &&& end.regs[0] & 0x0800 == 0
            &&& end.regs[0] | 0x0800 == phy.regs[0] | 0x0800
            &&& step == if phy.mdic & 0x1000_0000 != 0 {
                Step::<PowerUpPhy, ()>::Done(())
            } else {
                Step::<PowerUpPhy, ()>::Fault(Fault::PhyNotReady)
            }
        }),
{
    let n = (phy_questions() - 1) as nat;
    let word = phy.regs[0];
    law_phy_read(phy, 0);
    let start = read_phy_reg(0);
    let b = talk(start, phy, n).1->Wait_0;
    let before = talk(start, phy, n).0;
    lemma_talk_last(start, phy, n);
    lemma_talk_inside(start, phy, n, 2);
    let r = before.register(b.asks());
    let (actions, step) = b.next(r);
    assert(talk(b, before, 1) == (before.after(actions), step)) by {
        reveal_with_fuel(talk, 2);
        assert(step is Wait ==> talk(b, before, 1).1 is Wait);
    }
    let data = powered_up(word);
    let read = before.after(actions);
    lemma_after_append(before, actions, phy_write_actions(0, data));
    law_phy_written(read, 0, data);
    law_powered_up(word);
    let end = read.after(phy_write_actions(0, data));
    let w = PowerUpPhy::Write(WritePhyReg);
    assert(PowerUpPhy::Read(b).next(r) == (
        actions + phy_write_actions(0, data),
        Step::<PowerUpPhy, ()>::Wait(w),
    ));
    assert(talk(PowerUpPhy::Read(b), before, 2) == talk(w, end, 1));
    assert(end.after(seq![]) == end);
    assert(talk(w, end, 1) == (end, w.next(end.mdic).1));
    assert(talk(power_up_phy(), phy, n + 2) == talk(PowerUpPhy::Read(b), before, 2));
}

} // verus!
