//! The PHY, reached over a serial management wire or through a register.

use vstd::arithmetic::power2::lemma2_to64;
use vstd::prelude::*;
use crate::bits::{
    bit_of, lemma_mask, lemma_mask_down, lemma_number_bound, lemma_shifted, number, shifted,
};
use crate::defs::{
    E1000_CTRL, E1000_CTRL_MDC, E1000_CTRL_MDC_DIR, E1000_CTRL_MDIO, E1000_CTRL_MDIO_DIR,
    E1000_MDIC, E1000_MDIC_OP_WRITE, E1000_MDIC_PHY_SHIFT, E1000_MDIC_READY, E1000_MDIC_REG_SHIFT,
    MAX_PHY_REG_ADDRESS, MII_CR_POWER_DOWN, PHY_CTRL, PHY_OP_READ, PHY_PREAMBLE,
    PHY_PREAMBLE_SIZE, PHY_SOF,
};
use crate::protocol::{
    Action, Fault, Protocol, Step, lemma_run_append, lemma_run_inside, lemma_run_last,
    lemma_run_one, lemma_run_push, run,
};
use crate::resource::{Resource, flush, reg_write};
use crate::E1000;

verus! {

/// Put the levels `ctrl` on the management wires and hold them.
pub open spec fn mdi_hold(ctrl: u32) -> Seq<Action> {
    seq![reg_write(E1000_CTRL, ctrl), flush(), Action::ConstUdelay(10)]
}

/// One pulse of the management clock.
pub open spec fn mdi_pulse(ctrl: u32) -> Seq<Action> {
    mdi_hold(ctrl | E1000_CTRL_MDC) + mdi_hold(ctrl & !E1000_CTRL_MDC)
}

/// `ctrl` with the management data wire at the level `bit`.
pub open spec fn with_mdio(ctrl: u32, bit: bool) -> u32 {
    if bit {
        ctrl | E1000_CTRL_MDIO
    } else {
        ctrl & !E1000_CTRL_MDIO
    }
}

/// Clock the low `n` bits of `data` out, highest first, from the levels `ctrl`.
pub open spec fn mdi_clock_out(ctrl: u32, data: u32, n: nat) -> Seq<Action>
    decreases n,
{
    if n == 0 {
        seq![]
    } else {
        let level = with_mdio(ctrl, bit_of(data, n - 1));
        mdi_hold(level) + mdi_pulse(level) + mdi_clock_out(level, data, (n - 1) as nat)
    }
}

/// `ctrl` with both management wires driven by the adapter.
pub open spec fn mdi_driven(ctrl: u32) -> u32 {
    ctrl | (E1000_CTRL_MDIO_DIR | E1000_CTRL_MDC_DIR)
}

impl E1000 {
    /// Raises the management clock and holds it.
    pub fn raise_mdi_clk(re: &mut Resource, ctrl: u32)
        ensures
            final(re)@ == old(re)@ + mdi_hold(ctrl | E1000_CTRL_MDC),
    {
        re.ew32(E1000_CTRL, ctrl | E1000_CTRL_MDC);
        re.write_flush();
        re.push(Action::ConstUdelay(10));
    }

    /// Lowers the management clock and holds it.
    pub fn lower_mdi_clk(re: &mut Resource, ctrl: u32)
        ensures
            final(re)@ == old(re)@ + mdi_hold(ctrl & !E1000_CTRL_MDC),
    {
        re.ew32(E1000_CTRL, ctrl & !E1000_CTRL_MDC);
        re.write_flush();
        re.push(Action::ConstUdelay(10));
    }

    /// Shifts the low `count` bits of `data` out to the PHY, highest first. `ctrl` is what the
    /// control register held.
    pub fn shift_out_mdi_bits(re: &mut Resource, ctrl: u32, data: u32, count: u16)
        requires
            1 <= count <= 32,
        ensures
            final(re)@ == old(re)@ + mdi_clock_out(mdi_driven(ctrl), data, count as nat),
    {
        let mut mask: u32 = 0x01u32 << (count - 1);
        let mut ctrl: u32 = ctrl | (E1000_CTRL_MDIO_DIR | E1000_CTRL_MDC_DIR);
        let mut left: u16 = count;
        let ghost start = re@;
        let ghost first = ctrl;
        while mask != 0
            invariant
                left <= 32,
                left == 0 ==> mask == 0,
                left > 0 ==> mask == 1u32 << ((left - 1) as u32),
                start + mdi_clock_out(first, data, count as nat) == re@ + mdi_clock_out(
                    ctrl,
                    data,
                    left as nat,
                ),
            decreases left,
        {
            let ghost before = re@;
            let ghost old_ctrl = ctrl;
            proof {
                lemma_mask(data, mask, (left - 1) as u32);
                lemma_mask_down(mask, (left - 1) as u32);
            }
            if data & mask > 0 {
                ctrl = ctrl | E1000_CTRL_MDIO;
            } else {
                ctrl = ctrl & !E1000_CTRL_MDIO;
            }
            re.ew32(E1000_CTRL, ctrl);
            re.write_flush();
            re.push(Action::ConstUdelay(10));
            E1000::raise_mdi_clk(re, ctrl);
            E1000::lower_mdi_clk(re, ctrl);
            mask = mask >> 1;
            left = left - 1;
            assert(before + mdi_clock_out(old_ctrl, data, (left + 1) as nat) =~= re@
                + mdi_clock_out(ctrl, data, left as nat));
        }
        assert(left == 0) by {
            if left > 0 {
                lemma_mask(data, mask, (left - 1) as u32);
            }
        }
        assert(re@ =~= start + mdi_clock_out(first, data, count as nat));
    }
}

/// Whether the PHY answers with a one.
pub open spec fn mdi_sampled(ctrl: u32) -> bool {
    ctrl & E1000_CTRL_MDIO != 0
}

/// Shifting sixteen bits in from the PHY.
#[derive(Clone, Copy, PartialEq, Eq, Debug)]
pub enum ShiftInMdiBits {
    /// The data wire is still to be given to the PHY.
    Start,
    /// The clock is high; `left` bits are still to be sampled after those in `data`.
    Sample { data: u16, left: u16 },
}

impl Protocol for ShiftInMdiBits {
    type Request = u32;

    type Reply = u32;

    type Result = u16;

    open spec fn asks(self) -> u32 {
        E1000_CTRL
    }

    open spec fn next(self, ctrl: u32) -> (Seq<Action>, Step<ShiftInMdiBits, u16>) {
        match self {
            ShiftInMdiBits::Start => {
                let idle = (ctrl & !E1000_CTRL_MDIO_DIR) & !E1000_CTRL_MDIO;
                (
                    seq![reg_write(E1000_CTRL, idle), flush()] + mdi_pulse(idle) + mdi_hold(
                        idle | E1000_CTRL_MDC,
                    ),
                    Step::Wait(ShiftInMdiBits::Sample { data: 0, left: 16 }),
                )
            },
            ShiftInMdiBits::Sample { data, left } => {
                let data = shifted(data, mdi_sampled(ctrl));
                if left <= 1 {
                    (
                        mdi_hold(ctrl & !E1000_CTRL_MDC) + mdi_pulse(ctrl),
                        Step::Done(data),
                    )
                } else {
                    (
                        mdi_hold(ctrl & !E1000_CTRL_MDC) + mdi_hold(ctrl | E1000_CTRL_MDC),
                        Step::Wait(ShiftInMdiBits::Sample { data, left: (left - 1) as u16 }),
                    )
                }
            },
        }
    }
}

impl ShiftInMdiBits {
    /// The register to read next.
    pub fn register(&self) -> (reg: u32)
        ensures
            reg == self.asks(),
    {
        E1000_CTRL
    }

    /// Goes on with what the register held.
    pub fn step(self, ctrl: u32, re: &mut Resource) -> (step: Step<ShiftInMdiBits, u16>)
        ensures
            final(re)@ == old(re)@ + self.next(ctrl).0,
            step == self.next(ctrl).1,
    {
        match self {
            ShiftInMdiBits::Start => {
                let mut idle: u32 = ctrl & !E1000_CTRL_MDIO_DIR;
                idle = idle & !E1000_CTRL_MDIO;
                re.ew32(E1000_CTRL, idle);
                re.write_flush();
                E1000::raise_mdi_clk(re, idle);
                E1000::lower_mdi_clk(re, idle);
                E1000::raise_mdi_clk(re, idle);
                assert(re@ =~= old(re)@ + self.next(ctrl).0);
                Step::Wait(ShiftInMdiBits::Sample { data: 0, left: 16 })
            },
            ShiftInMdiBits::Sample { data, left } => {
                let mut data: u16 = data << 1;
                if ctrl & E1000_CTRL_MDIO > 0 {
                    data = data | 1;
                }
                E1000::lower_mdi_clk(re, ctrl);
                E1000::raise_mdi_clk(re, ctrl);
                if left <= 1 {
                    E1000::lower_mdi_clk(re, ctrl);
                    assert(re@ =~= old(re)@ + self.next(ctrl).0);
                    return Step::Done(data);
                }
                assert(re@ =~= old(re)@ + self.next(ctrl).0);
                Step::Wait(ShiftInMdiBits::Sample { data, left: left - 1 })
            },
        }
    }
}

/// How far the reading of a PHY register has come.
#[derive(Clone, Copy, PartialEq, Eq, Debug)]
pub enum ReadPhyPhase {
    /// The preamble is to be sent.
    Preamble,
    /// The read command is to be sent.
    Command,
    /// The word is coming in.
    ShiftIn(ShiftInMdiBits),
}

/// Reading a register of the PHY.
#[derive(Clone, Copy, PartialEq, Eq, Debug)]
pub struct ReadPhyReg {
    pub reg_addr: u32,
    pub phase: ReadPhyPhase,
}

/// The read command for the register `reg_addr` of the first PHY: start of frame, operation, PHY
/// and register.
pub open spec fn phy_read_command(reg_addr: u32) -> u32 {
    reg_addr | (1u32 << 5) | (PHY_OP_READ << 10) | (PHY_SOF << 12)
}

/// The reading of the register `reg_addr`, about to begin.
pub open spec fn read_phy_reg(reg_addr: u32) -> ReadPhyReg {
    ReadPhyReg { reg_addr, phase: ReadPhyPhase::Preamble }
}

impl Protocol for ReadPhyReg {
    type Request = u32;

    type Reply = u32;

    type Result = u16;

    open spec fn asks(self) -> u32 {
        E1000_CTRL
    }

    open spec fn next(self, ctrl: u32) -> (Seq<Action>, Step<ReadPhyReg, u16>) {
        match self.phase {
            ReadPhyPhase::Preamble => (
                mdi_clock_out(mdi_driven(ctrl), PHY_PREAMBLE, PHY_PREAMBLE_SIZE as nat),
                Step::Wait(ReadPhyReg { phase: ReadPhyPhase::Command, ..self }),
            ),
            ReadPhyPhase::Command => (
                mdi_clock_out(mdi_driven(ctrl), phy_read_command(self.reg_addr), 14),
                Step::Wait(
                    ReadPhyReg { phase: ReadPhyPhase::ShiftIn(ShiftInMdiBits::Start), ..self },
                ),
            ),
            ReadPhyPhase::ShiftIn(shift_in) => (
                shift_in.next(ctrl).0,
                match shift_in.next(ctrl).1 {
                    Step::Wait(shift_in) => Step::Wait(
                        ReadPhyReg { phase: ReadPhyPhase::ShiftIn(shift_in), ..self },
                    ),
                    Step::Done(data) => Step::Done(data),
                    Step::Fault(fault) => Step::Fault(fault),
                },
            ),
        }
    }
}

impl E1000 {
    /// Begins to read the register `reg_addr` of the PHY.
    pub fn read_phy_reg(reg_addr: u32) -> (read: ReadPhyReg)
        ensures
            read == read_phy_reg(reg_addr),
    {
        ReadPhyReg { reg_addr, phase: ReadPhyPhase::Preamble }
    }
}

impl ReadPhyReg {
    /// The register to read next.
    pub fn register(&self) -> (reg: u32)
        ensures
            reg == self.asks(),
    {
        E1000_CTRL
    }

    /// Goes on with what the register held.
    pub fn step(self, ctrl: u32, re: &mut Resource) -> (step: Step<ReadPhyReg, u16>)
        ensures
            final(re)@ == old(re)@ + self.next(ctrl).0,
            step == self.next(ctrl).1,
    {
        let reg_addr = self.reg_addr;
        match self.phase {
            ReadPhyPhase::Preamble => {
                E1000::shift_out_mdi_bits(re, ctrl, PHY_PREAMBLE, PHY_PREAMBLE_SIZE as u16);
                Step::Wait(ReadPhyReg { reg_addr, phase: ReadPhyPhase::Command })
            },
            ReadPhyPhase::Command => {
                let phy_addr: u32 = 1;
                let mdic: u32 = reg_addr | (phy_addr << 5) | (PHY_OP_READ << 10) | (PHY_SOF << 12);
                E1000::shift_out_mdi_bits(re, ctrl, mdic, 14);
                Step::Wait(
                    ReadPhyReg { reg_addr, phase: ReadPhyPhase::ShiftIn(ShiftInMdiBits::Start) },
                )
            },
            ReadPhyPhase::ShiftIn(shift_in) => {
                match shift_in.step(ctrl, re) {
                    Step::Wait(shift_in) => Step::Wait(
                        ReadPhyReg { reg_addr, phase: ReadPhyPhase::ShiftIn(shift_in) },
                    ),
                    Step::Done(data) => Step::Done(data),
                    Step::Fault(fault) => Step::Fault(fault),
                }
            },
        }
    }
}

/// The command that writes `phy_data` to the register `reg_addr` of the first PHY.
pub open spec fn phy_write_command(reg_addr: u32, phy_data: u16) -> u32 {
    phy_data as u32 | (reg_addr << E1000_MDIC_REG_SHIFT) | (1u32 << E1000_MDIC_PHY_SHIFT)
        | E1000_MDIC_OP_WRITE
}

/// Give the adapter the command to write a PHY register, and some time.
pub open spec fn phy_write_actions(reg_addr: u32, phy_data: u16) -> Seq<Action> {
    seq![reg_write(E1000_MDIC, phy_write_command(reg_addr, phy_data)), Action::ConstUdelay(5)]
}

/// Writing a register of the PHY: the command was given, and the adapter has to be ready when it
/// is next looked at.
#[derive(Clone, Copy, PartialEq, Eq, Debug)]
pub struct WritePhyReg;

impl Protocol for WritePhyReg {
    type Request = u32;

    type Reply = u32;

    type Result = ();

    open spec fn asks(self) -> u32 {
        E1000_MDIC
    }

    open spec fn next(self, mdic: u32) -> (Seq<Action>, Step<WritePhyReg, ()>) {
        (
            seq![],
            if mdic & E1000_MDIC_READY != 0 {
                Step::Done(())
            } else {
                Step::Fault(Fault::PhyNotReady)
            },
        )
    }
}

impl E1000 {
    /// Begins to write `phy_data` to the register `reg_addr` of the PHY.
    pub fn write_phy_reg(re: &mut Resource, reg_addr: u32, phy_data: u16) -> (write: WritePhyReg)
        requires
            reg_addr <= MAX_PHY_REG_ADDRESS,
        ensures
            final(re)@ == old(re)@ + phy_write_actions(reg_addr, phy_data),
    {
        let phy_addr: u32 = 1;
        let mdic: u32 = phy_data as u32 | (reg_addr << E1000_MDIC_REG_SHIFT) | (phy_addr
            << E1000_MDIC_PHY_SHIFT) | E1000_MDIC_OP_WRITE;
        re.ew32(E1000_MDIC, mdic);
        re.push(Action::ConstUdelay(5));
        WritePhyReg
    }
}

impl WritePhyReg {
    /// The register to read next.
    pub fn register(&self) -> (reg: u32)
        ensures
            reg == self.asks(),
    {
        E1000_MDIC
    }

    /// Goes on with what the register held.
    pub fn step(self, mdic: u32, re: &mut Resource) -> (step: Step<WritePhyReg, ()>)
        ensures
            final(re)@ == old(re)@ + self.next(mdic).0,
            step == self.next(mdic).1,
    {
        assert(re@ =~= old(re)@ + self.next(mdic).0);
        if mdic & E1000_MDIC_READY > 0 {
            Step::Done(())
        } else {
            Step::Fault(Fault::PhyNotReady)
        }
    }
}

/// Powering the PHY up: the power-down bit of its control register is cleared.
#[derive(Clone, Copy, PartialEq, Eq, Debug)]
pub enum PowerUpPhy {
    /// The control register is being read.
    Read(ReadPhyReg),
    /// The control register is being written.
    Write(WritePhyReg),
}

/// The PHY control register `mii_reg` without the power-down bit.
pub open spec fn powered_up(mii_reg: u16) -> u16 {
    mii_reg & (!MII_CR_POWER_DOWN) as u16
}

/// The powering up, about to begin.
pub open spec fn power_up_phy() -> PowerUpPhy {
    PowerUpPhy::Read(read_phy_reg(PHY_CTRL))
}

impl Protocol for PowerUpPhy {
    type Request = u32;

    type Reply = u32;

    type Result = ();

    open spec fn asks(self) -> u32 {
        match self {
            PowerUpPhy::Read(read) => read.asks(),
            PowerUpPhy::Write(write) => write.asks(),
        }
    }

    open spec fn next(self, reply: u32) -> (Seq<Action>, Step<PowerUpPhy, ()>) {
        match self {
            PowerUpPhy::Read(read) => {
                let (actions, step) = read.next(reply);
                match step {
                    Step::Wait(read) => (actions, Step::Wait(PowerUpPhy::Read(read))),
                    Step::Done(mii_reg) => (
                        actions + phy_write_actions(PHY_CTRL, powered_up(mii_reg)),
                        Step::Wait(PowerUpPhy::Write(WritePhyReg)),
                    ),
                    Step::Fault(fault) => (actions, Step::Fault(fault)),
                }
            },
            PowerUpPhy::Write(write) => (
                write.next(reply).0,
                match write.next(reply).1 {
                    Step::Wait(write) => Step::Wait(PowerUpPhy::Write(write)),
                    Step::Done(_) => Step::Done(()),
                    Step::Fault(fault) => Step::Fault(fault),
                },
            ),
        }
    }
}

impl E1000 {
    /// Begins to power the PHY up.
    pub fn power_up_phy() -> (power_up: PowerUpPhy)
        ensures
            power_up == power_up_phy(),
    {
        PowerUpPhy::Read(E1000::read_phy_reg(PHY_CTRL))
    }
}

impl PowerUpPhy {
    /// The register to read next.
    pub fn register(&self) -> (reg: u32)
        ensures
            reg == self.asks(),
    {
        match self {
            PowerUpPhy::Read(read) => read.register(),
            PowerUpPhy::Write(write) => write.register(),
        }
    }

    /// Goes on with what the register held.
    pub fn step(self, reply: u32, re: &mut Resource) -> (step: Step<PowerUpPhy, ()>)
        ensures
            final(re)@ == old(re)@ + self.next(reply).0,
            step == self.next(reply).1,
    {
        match self {
            PowerUpPhy::Read(read) => match read.step(reply, re) {
                Step::Wait(read) => Step::Wait(PowerUpPhy::Read(read)),
                Step::Done(mii_reg) => {
                    let mii_reg: u16 = mii_reg & (!MII_CR_POWER_DOWN) as u16;
                    let write = E1000::write_phy_reg(re, PHY_CTRL, mii_reg);
                    assert(re@ =~= old(re)@ + self.next(reply).0);
                    Step::Wait(PowerUpPhy::Write(write))
                },
                Step::Fault(fault) => Step::Fault(fault),
            },
            PowerUpPhy::Write(write) => match write.step(reply, re) {
                Step::Wait(write) => Step::Wait(PowerUpPhy::Write(write)),
                Step::Done(_) => Step::Done(()),
                Step::Fault(fault) => Step::Fault(fault),
            },
        }
    }
}

/// The bits that the PHY answered with.
pub open spec fn mdi_answers(samples: Seq<u32>) -> Seq<bool> {
    Seq::new(samples.len(), |i: int| samples[i] & 0x10_0000 != 0)
}

/// The sampled bits are added to those before them.
proof fn lemma_mdi_samples(prior: Seq<bool>, data: u16, samples: Seq<u32>)
    requires
        1 <= samples.len() <= u16::MAX,
        data == number(prior) % 0x1_0000,
    ensures
        run(ShiftInMdiBits::Sample { data, left: samples.len() as u16 }, samples).1 == Step::<
            ShiftInMdiBits,
            u16,
        >::Done((number(prior + mdi_answers(samples)) % 0x1_0000) as u16),
        run(
            ShiftInMdiBits::Sample { data, left: samples.len() as u16 },
            samples.drop_last(),
        ).1 is Wait,
    decreases samples.len(),
{
    let bit = mdi_sampled(samples[0]);
    lemma_shifted(data, prior, bit);
    let rest = samples.drop_first();
    if samples.len() == 1 {
        assert(prior + mdi_answers(samples) =~= prior.push(bit));
        assert(samples.drop_last() =~= seq![]);
    } else {
        lemma_mdi_samples(prior.push(bit), shifted(data, bit), rest);
        assert(prior.push(bit) + mdi_answers(rest) =~= prior + mdi_answers(samples));
        assert(samples.drop_last().drop_first() =~= rest.drop_last());
    }
}

/// Preamble and command are sent, and the data wire is given to the PHY.
proof fn lemma_phy_command(reg_addr: u32, levels: (u32, u32, u32))
    ensures
        run(read_phy_reg(reg_addr), seq![levels.0, levels.1, levels.2]).1 == Step::<
            ReadPhyReg,
            u16,
        >::Wait(
            ReadPhyReg {
                reg_addr,
                phase: ReadPhyPhase::ShiftIn(ShiftInMdiBits::Sample { data: 0, left: 16 }),
            },
        ),
{
    let start = read_phy_reg(reg_addr);
    lemma_run_one(start, levels.0);
    lemma_run_push(start, seq![levels.0], levels.1);
    lemma_run_push(start, seq![levels.0].push(levels.1), levels.2);
    assert(seq![levels.0].push(levels.1).push(levels.2) =~= seq![levels.0, levels.1, levels.2]);
}

/// Whatever the device shows on the way, the word read from a PHY register is the one that its
/// sixteen sampled bits spell, highest first.
pub proof fn law_read_phy_reg(reg_addr: u32, levels: (u32, u32, u32), samples: Seq<u32>)
    requires
        samples.len() == 16,
    ensures
        ({
            let replies = seq![levels.0, levels.1, levels.2] + samples;
            let word = number(mdi_answers(samples)) as u16;
            &&& run(read_phy_reg(reg_addr), replies).1 == Step::<ReadPhyReg, u16>::Done(word)
            &&& run(read_phy_reg(reg_addr), replies.drop_last()).1 is Wait
            &&& number(mdi_answers(samples)) < 0x1_0000
        }),
{
    let start = read_phy_reg(reg_addr);
    let f = |x: ShiftInMdiBits| ReadPhyReg { reg_addr, phase: ReadPhyPhase::ShiftIn(x) };
    let s = ShiftInMdiBits::Sample { data: 0, left: 16 };
    let head = seq![levels.0, levels.1, levels.2];
    lemma_phy_command(reg_addr, levels);
    lemma_mdi_samples(seq![], 0, samples);
    assert(Seq::<bool>::empty() + mdi_answers(samples) =~= mdi_answers(samples));
    lemma_number_bound(mdi_answers(samples));
    lemma2_to64();
    lemma_run_inside(s, f, samples.drop_last());
    let b = lemma_run_last(s, samples);
    let c = lemma_run_last(f(s), samples);
    lemma_run_append(start, head, samples);
    lemma_run_append(start, head, samples.drop_last());
    assert((head + samples).drop_last() =~= head + samples.drop_last());
}

/// Powering up reads the PHY's control register and writes it back without the power-down bit. It
/// succeeds just when the adapter is ready at the end.
pub proof fn law_power_up_phy(levels: (u32, u32, u32), samples: Seq<u32>, mdic: u32)
    requires
        samples.len() == 16,
    ensures
        ({
            let replies = seq![levels.0, levels.1, levels.2] + samples;
            let word = number(mdi_answers(samples)) as u16;
            &&& run(power_up_phy(), replies.drop_last()).1 matches Step::Wait(last)
            &&& last matches PowerUpPhy::Read(read)
            &&& last.next(samples.last()) == (
                read.next(samples.last()).0 + phy_write_actions(PHY_CTRL, powered_up(word)),
                Step::<PowerUpPhy, ()>::Wait(PowerUpPhy::Write(WritePhyReg)),
            )
            &&& run(power_up_phy(), replies.push(mdic)).1 == if mdic & 0x1000_0000 != 0 {
                Step::<PowerUpPhy, ()>::Done(())
            } else {
                Step::<PowerUpPhy, ()>::Fault(Fault::PhyNotReady)
            }
            &&& run(power_up_phy(), replies).1 is Wait
        }),
{
    let replies = seq![levels.0, levels.1, levels.2] + samples;
    let start = read_phy_reg(PHY_CTRL);
    let f = |x: ReadPhyReg| PowerUpPhy::Read(x);
    law_read_phy_reg(PHY_CTRL, levels, samples);
    assert(replies.last() == samples.last());
    lemma_run_inside(start, f, replies.drop_last());
    let b = lemma_run_last(start, replies);
    let c = lemma_run_last(f(start), replies);
    assert(replies.push(mdic).drop_last() =~= replies);
    let d = lemma_run_last(f(start), replies.push(mdic));
}

/// Only the power-down bit is changed, and it is clear afterwards.
pub proof fn law_powered_up(mii_reg: u16)
    ensures
        powered_up(mii_reg) & 0x0800 == 0,
        powered_up(mii_reg) | 0x0800 == mii_reg | 0x0800,
{
    let down: u32 = MII_CR_POWER_DOWN;
    assert((mii_reg & (!down) as u16) & 0x0800 == 0 && (mii_reg & (!down) as u16) | 0x0800
        == mii_reg | 0x0800) by (bit_vector)
        requires
            down == 0x0800,
    ;
}

/// A read command is the start of the frame, the operation, the number of the PHY and that of the
/// register, side by side. A number that does not fit its place is laid over the others.
pub proof fn law_phy_read_command(reg_addr: u32)
    ensures
        reg_addr <= 0x1F ==> phy_read_command(reg_addr) == 1 * 0x1000 + 2 * 0x400 + 1 * 0x20
            + reg_addr,
        reg_addr <= 0x1F ==> phy_read_command(reg_addr) < 0x4000,
        phy_read_command(reg_addr) & 0x1820 == 0x1820,
        phy_read_command(reg_addr) | 0x1820 == reg_addr | 0x1820,
{
    let x = phy_read_command(reg_addr);
    assert((reg_addr <= 0x1F ==> x == 0x1000 + 0x800 + 0x20 + reg_addr) && x & 0x1820 == 0x1820 && x
        | 0x1820 == reg_addr | 0x1820) by (bit_vector)
        requires
            x == reg_addr | (1u32 << 5) | (2u32 << 10) | (1u32 << 12),
    ;
}

/// A register is written with one command: the operation, the number of the PHY, that of the
/// register and the word, side by side. Some time passes after it.
pub proof fn law_phy_write_command(reg_addr: u32, phy_data: u16)
    requires
        reg_addr <= 0x1F,
    ensures
        phy_write_command(reg_addr, phy_data) == 0x0400_0000 + 0x20_0000 + reg_addr * 0x1_0000
            + phy_data,
        phy_write_actions(reg_addr, phy_data) == seq![
            Action::Write {
                offset: 0x20,
                value: (0x0400_0000 + 0x20_0000 + reg_addr * 0x1_0000 + phy_data) as u32,
            },
            Action::ConstUdelay(5),
        ],
{
    assert((phy_data as u32 | (reg_addr << 16u32) | (1u32 << 21u32) | 0x0400_0000u32) == 0x0400_0000
        + 0x20_0000 + reg_addr * 0x1_0000 + phy_data) by (bit_vector)
        requires
            reg_addr <= 0x1f,
    ;
}

/// The level of the data wire at each rise of the management clock during `actions`. The clock
/// was at `clock` before.
pub open spec fn mdi_clocked(clock: bool, actions: Seq<Action>) -> Seq<bool>
    decreases actions.len(),
{
    if actions.len() == 0 {
        seq![]
    } else {
        match actions[0] {
            Action::Write { offset, value } => if offset == E1000_CTRL {
                let high = value & E1000_CTRL_MDC != 0;
                let rest = mdi_clocked(high, actions.drop_first());
                if high && !clock {
                    seq![mdi_sampled(value)] + rest
                } else {
                    rest
                }
            } else {
                mdi_clocked(clock, actions.drop_first())
            },
            _ => mdi_clocked(clock, actions.drop_first()),
        }
    }
}

/// One more level is held.
proof fn lemma_mdi_held(clock: bool, ctrl: u32, rest: Seq<Action>)
    ensures
        ({
            let high = ctrl & E1000_CTRL_MDC != 0;
            mdi_clocked(clock, mdi_hold(ctrl) + rest) == if high && !clock {
                seq![mdi_sampled(ctrl)] + mdi_clocked(high, rest)
            } else {
                mdi_clocked(high, rest)
            }
        }),
{
    reveal_with_fuel(mdi_clocked, 4);
    let all = mdi_hold(ctrl) + rest;
    assert(all.drop_first() =~= seq![flush(), Action::ConstUdelay(10)] + rest);
    assert(all.drop_first().drop_first() =~= seq![Action::ConstUdelay(10)] + rest);
    assert(all.drop_first().drop_first().drop_first() =~= rest);
}

/// Clocking bits out to the PHY from a low clock presents just these bits at the rises of the
/// clock, highest first.
pub proof fn law_mdi_clock_out(ctrl: u32, data: u32, n: nat)
    requires
        ctrl & E1000_CTRL_MDC == 0,
        n <= 32,
    ensures
        mdi_clocked(false, mdi_clock_out(ctrl, data, n)) == Seq::new(
            n,
            |i: int| bit_of(data, n - 1 - i),
        ),
    decreases n,
{
    let wanted = Seq::new(n, |i: int| bit_of(data, n - 1 - i));
    if n == 0 {
        assert(mdi_clock_out(ctrl, data, n) =~= seq![]);
        assert(wanted =~= seq![]);
    } else {
        let bit = bit_of(data, n - 1);
        let level = with_mdio(ctrl, bit);
        let high = level | E1000_CTRL_MDC;
        let low = level & !E1000_CTRL_MDC;
        let rest = mdi_clock_out(level, data, (n - 1) as nat);
        assert(level & 0x0020_0000 == 0 && high & 0x0020_0000 != 0 && low & 0x0020_0000 == 0 && (
        high & 0x0010_0000 != 0) == bit) by (bit_vector)
            requires
                ctrl & 0x0020_0000 == 0,
                level == (if bit {
                    ctrl | 0x0010_0000
                } else {
                    ctrl & !0x0010_0000
                }),
                high == level | 0x0020_0000,
                low == level & !0x0020_0000,
        ;
        law_mdi_clock_out(level, data, (n - 1) as nat);
        lemma_mdi_held(false, level, mdi_hold(high) + (mdi_hold(low) + rest));
        lemma_mdi_held(false, high, mdi_hold(low) + rest);
        lemma_mdi_held(true, low, rest);
        assert(mdi_clock_out(ctrl, data, n) =~= mdi_hold(level) + (mdi_hold(high) + (mdi_hold(low)
            + rest)));
        assert(wanted =~= seq![bit] + Seq::new(
            (n - 1) as nat,
            |i: int| bit_of(data, n - 1 - 1 - i),
        ));
        assert(Seq::new((n - 1) as nat, |i: int| bit_of(data, n - 1 - 1 - i)) =~= Seq::new(
            (n - 1) as nat,
            |i: int| bit_of(data, (n - 1) as nat - 1 - i),
        ));
    }
}

} // verus!
