//! Reading a word from the EEPROM.

use vstd::prelude::*;
use crate::bits::shifted;
use crate::defs::{
    E1000_EECD, E1000_EECD_CS, E1000_EECD_DI, E1000_EECD_DO, E1000_EECD_GNT, E1000_EECD_REQ,
    E1000_EECD_SK, E1000_EEPROM_GRANT_ATTEMPTS, EEPROM_READ_OPCODE_MICROWIRE,
};
use crate::eeprom::wires::{EepromInfo, clock_out, hold, release_actions, standby_actions};
use crate::protocol::{Action, Fault, Protocol, Step};
use crate::resource::{Resource, flush, reg_write};
use crate::E1000;

verus! {

/// Once access is granted: let clock and data fall, then select the EEPROM.
pub open spec fn select_actions(eecd: u32) -> Seq<Action> {
    let low = eecd & !(E1000_EECD_DI | E1000_EECD_SK);
    seq![
        reg_write(E1000_EECD, low),
        reg_write(E1000_EECD, low | E1000_EECD_CS),
        flush(),
        Action::ConstUdelay(1),
    ]
}

/// Asking for access to the EEPROM.
#[derive(Clone, Copy, PartialEq, Eq, Debug)]
pub enum AcquireEeprom {
    /// The request is still to be made.
    Request,
    /// The request was made and has been looked after `attempts` times in vain.
    Grant { attempts: u32 },
}

impl Protocol for AcquireEeprom {
    type Request = u32;

    type Reply = u32;

    type Result = ();

    open spec fn asks(self) -> u32 {
        E1000_EECD
    }

    open spec fn next(self, eecd: u32) -> (Seq<Action>, Step<AcquireEeprom, ()>) {
        match self {
            AcquireEeprom::Request => (
                seq![reg_write(E1000_EECD, eecd | E1000_EECD_REQ)],
                Step::Wait(AcquireEeprom::Grant { attempts: 0 }),
            ),
            AcquireEeprom::Grant { attempts } => if eecd & E1000_EECD_GNT != 0 {
                (select_actions(eecd), Step::Done(()))
            } else if attempts < E1000_EEPROM_GRANT_ATTEMPTS {
                (
                    seq![Action::ConstUdelay(5)],
                    Step::Wait(AcquireEeprom::Grant { attempts: (attempts + 1) as u32 }),
                )
            } else {
                (seq![], Step::Fault(Fault::EepromNotGranted))
            },
        }
    }
}

impl AcquireEeprom {
    /// The register to read next.
    pub fn register(&self) -> (reg: u32)
        ensures
            reg == self.asks(),
    {
        E1000_EECD
    }

    /// Goes on with what the register held.
    pub fn step(self, eecd: u32, re: &mut Resource) -> (step: Step<AcquireEeprom, ()>)
        ensures
            final(re)@ == old(re)@ + self.next(eecd).0,
            step == self.next(eecd).1,
    {
        match self {
            AcquireEeprom::Request => {
                re.ew32(E1000_EECD, eecd | E1000_EECD_REQ);
                Step::Wait(AcquireEeprom::Grant { attempts: 0 })
            },
            AcquireEeprom::Grant { attempts } => {
                if eecd & E1000_EECD_GNT == 0 {
                    if attempts < E1000_EEPROM_GRANT_ATTEMPTS {
                        re.push(Action::ConstUdelay(5));
                        return Step::Wait(AcquireEeprom::Grant { attempts: attempts + 1 });
                    }
                    assert(re@ =~= old(re)@ + self.next(eecd).0);
                    return Step::Fault(Fault::EepromNotGranted);
                }
                // Clear SK and DI.
                let mut eecd: u32 = eecd & !(E1000_EECD_DI | E1000_EECD_SK);
                re.ew32(E1000_EECD, eecd);
                // Set CS.
                eecd = eecd | E1000_EECD_CS;
                re.ew32(E1000_EECD, eecd);
                re.write_flush();
                re.push(Action::ConstUdelay(1));
                Step::Done(())
            },
        }
    }
}

/// Whether the EEPROM answers with a one.
pub open spec fn sampled(eecd: u32) -> bool {
    eecd & E1000_EECD_DO != 0
}

/// Shifting bits in from the EEPROM: the clock is raised, the data wire is sampled, the clock is
/// lowered. The data wire to the EEPROM stays low throughout.
#[derive(Clone, Copy, PartialEq, Eq, Debug)]
pub enum ShiftInEeBits {
    /// The levels of the wires are still to be read; `count` bits are wanted.
    Start { eeprom: EepromInfo, count: u16 },
    /// The clock is high; `left` bits are still to be sampled after those in `data`.
    Sample { eeprom: EepromInfo, data: u16, left: u16 },
}

impl Protocol for ShiftInEeBits {
    type Request = u32;

    type Reply = u32;

    type Result = u16;

    open spec fn asks(self) -> u32 {
        E1000_EECD
    }

    open spec fn next(self, eecd: u32) -> (Seq<Action>, Step<ShiftInEeBits, u16>) {
        match self {
            ShiftInEeBits::Start { eeprom, count } => if count == 0 {
                (seq![], Step::Done(0))
            } else {
                (
                    hold(
                        (eecd & !(E1000_EECD_DO | E1000_EECD_DI)) | E1000_EECD_SK,
                        eeprom.delay_usec,
                    ),
                    Step::Wait(ShiftInEeBits::Sample { eeprom, data: 0, left: count }),
                )
            },
            ShiftInEeBits::Sample { eeprom, data, left } => {
                let low = (eecd & !E1000_EECD_DI) & !E1000_EECD_SK;
                let data = shifted(data, sampled(eecd & !E1000_EECD_DI));
                if left <= 1 {
                    (hold(low, eeprom.delay_usec), Step::Done(data))
                } else {
                    (
                        hold(low, eeprom.delay_usec) + hold(low | E1000_EECD_SK, eeprom.delay_usec),
                        Step::Wait(
                            ShiftInEeBits::Sample { eeprom, data, left: (left - 1) as u16 },
                        ),
                    )
                }
            },
        }
    }
}

impl ShiftInEeBits {
    /// The register to read next.
    pub fn register(&self) -> (reg: u32)
        ensures
            reg == self.asks(),
    {
        E1000_EECD
    }

    /// Goes on with what the register held.
    pub fn step(self, eecd: u32, re: &mut Resource) -> (step: Step<ShiftInEeBits, u16>)
        ensures
            final(re)@ == old(re)@ + self.next(eecd).0,
            step == self.next(eecd).1,
    {
        let mut eecd: u32 = eecd;
        let ghost reply = eecd;
        match self {
            ShiftInEeBits::Start { eeprom, count } => {
                eecd = eecd & !(E1000_EECD_DO | E1000_EECD_DI);
                if count == 0 {
                    assert(re@ =~= old(re)@ + self.next(reply).0);
                    return Step::Done(0);
                }
                E1000::raise_ee_clk(re, &eeprom, &mut eecd);
                Step::Wait(ShiftInEeBits::Sample { eeprom, data: 0, left: count })
            },
            ShiftInEeBits::Sample { eeprom, data, left } => {
                let mut data: u16 = data << 1;
                eecd = eecd & !E1000_EECD_DI;
                if eecd & E1000_EECD_DO > 0 {
                    data = data | 1;
                }
                E1000::lower_ee_clk(re, &eeprom, &mut eecd);
                if left <= 1 {
                    return Step::Done(data);
                }
                E1000::raise_ee_clk(re, &eeprom, &mut eecd);
                assert(re@ =~= old(re)@ + self.next(reply).0);
                Step::Wait(ShiftInEeBits::Sample { eeprom, data, left: left - 1 })
            },
        }
    }
}

/// How far the reading of a word has come.
#[derive(Clone, Copy, PartialEq, Eq, Debug)]
pub enum ReadPhase {
    /// Access to the EEPROM is being asked for.
    Acquire(AcquireEeprom),
    /// The opcode is to be sent.
    Opcode,
    /// The address is to be sent.
    Address,
    /// The word is coming in.
    ShiftIn(ShiftInEeBits),
    /// The word is there; the EEPROM is to be put on standby.
    Standby { data: u16 },
    /// The EEPROM is to be given back.
    Release { data: u16 },
}

/// Reading one word from the EEPROM.
#[derive(Clone, Copy, PartialEq, Eq, Debug)]
pub struct ReadEeprom {
    pub eeprom: EepromInfo,
    pub offset: u16,
    pub phase: ReadPhase,
}

impl ReadEeprom {
    /// The same reading in another phase.
    pub open spec fn at(self, phase: ReadPhase) -> ReadEeprom {
        ReadEeprom { phase, ..self }
    }
}

/// The reading of the word at `offset`, about to begin.
pub open spec fn read_eeprom(eeprom: EepromInfo, offset: u16) -> ReadEeprom {
    ReadEeprom { eeprom, offset, phase: ReadPhase::Acquire(AcquireEeprom::Request) }
}

impl Protocol for ReadEeprom {
    type Request = u32;

    type Reply = u32;

    type Result = u16;

    open spec fn asks(self) -> u32 {
        E1000_EECD
    }

    open spec fn next(self, eecd: u32) -> (Seq<Action>, Step<ReadEeprom, u16>) {
        let delay = self.eeprom.delay_usec;
        match self.phase {
            ReadPhase::Acquire(acquire) => (
                acquire.next(eecd).0,
                match acquire.next(eecd).1 {
                    Step::Wait(acquire) => Step::Wait(self.at(ReadPhase::Acquire(acquire))),
                    Step::Done(_) => Step::Wait(self.at(ReadPhase::Opcode)),
                    Step::Fault(fault) => Step::Fault(fault),
                },
            ),
            ReadPhase::Opcode => (
                clock_out(
                    eecd & !E1000_EECD_DO,
                    delay,
                    EEPROM_READ_OPCODE_MICROWIRE as u16,
                    self.eeprom.opcode_bits as nat,
                ),
                Step::Wait(self.at(ReadPhase::Address)),
            ),
            ReadPhase::Address => (
                clock_out(
                    eecd & !E1000_EECD_DO,
                    delay,
                    self.offset,
                    self.eeprom.address_bits as nat,
                ),
                Step::Wait(
                    self.at(
                        ReadPhase::ShiftIn(ShiftInEeBits::Start { eeprom: self.eeprom, count: 16 }),
                    ),
                ),
            ),
            ReadPhase::ShiftIn(shift_in) => (
                shift_in.next(eecd).0,
                match shift_in.next(eecd).1 {
                    Step::Wait(shift_in) => Step::Wait(self.at(ReadPhase::ShiftIn(shift_in))),
                    Step::Done(data) => Step::Wait(self.at(ReadPhase::Standby { data })),
                    Step::Fault(fault) => Step::Fault(fault),
                },
            ),
            ReadPhase::Standby { data } => (
                standby_actions(eecd, delay).push(Action::CondResched),
                Step::Wait(self.at(ReadPhase::Release { data })),
            ),
            ReadPhase::Release { data } => (release_actions(eecd, delay), Step::Done(data)),
        }
    }
}

impl E1000 {
    /// Begins to read `words` words of the EEPROM from `offset` on. Only a single word can be
    /// read at a time.
    pub fn e1000_read_eeprom(eeprom: &EepromInfo, offset: u16, words: u16) -> (read: ReadEeprom)
        requires
            offset < eeprom.word_size,
            words == 1,
        ensures
            read == read_eeprom(*eeprom, offset),
    {
        ReadEeprom {
            eeprom: *eeprom,
            offset,
            phase: ReadPhase::Acquire(AcquireEeprom::Request),
        }
    }
}

impl ReadEeprom {
    /// The register to read next.
    pub fn register(&self) -> (reg: u32)
        ensures
            reg == self.asks(),
    {
        E1000_EECD
    }

    /// Goes on with what the register held.
    pub fn step(self, eecd: u32, re: &mut Resource) -> (step: Step<ReadEeprom, u16>)
        requires
            self.eeprom.wf(),
        ensures
            final(re)@ == old(re)@ + self.next(eecd).0,
            step == self.next(eecd).1,
    {
        let eeprom = self.eeprom;
        let offset = self.offset;
        match self.phase {
            ReadPhase::Acquire(acquire) => {
                match acquire.step(eecd, re) {
                    Step::Wait(acquire) => Step::Wait(
                        ReadEeprom { eeprom, offset, phase: ReadPhase::Acquire(acquire) },
                    ),
                    Step::Done(_) => Step::Wait(
                        ReadEeprom { eeprom, offset, phase: ReadPhase::Opcode },
                    ),
                    Step::Fault(fault) => Step::Fault(fault),
                }
            },
            // Send the READ command (opcode and address).
            ReadPhase::Opcode => {
                E1000::shift_out_ee_bits(
                    re,
                    &eeprom,
                    eecd,
                    EEPROM_READ_OPCODE_MICROWIRE as u16,
                    eeprom.opcode_bits,
                );
                Step::Wait(ReadEeprom { eeprom, offset, phase: ReadPhase::Address })
            },
            ReadPhase::Address => {
                E1000::shift_out_ee_bits(re, &eeprom, eecd, offset, eeprom.address_bits);
                let shift_in = ShiftInEeBits::Start { eeprom, count: 16 };
                Step::Wait(ReadEeprom { eeprom, offset, phase: ReadPhase::ShiftIn(shift_in) })
            },
            ReadPhase::ShiftIn(shift_in) => {
                match shift_in.step(eecd, re) {
                    Step::Wait(shift_in) => Step::Wait(
                        ReadEeprom { eeprom, offset, phase: ReadPhase::ShiftIn(shift_in) },
                    ),
                    // Each word requires the overhead of EEPROM setup and tear-down.
                    Step::Done(data) => Step::Wait(
                        ReadEeprom { eeprom, offset, phase: ReadPhase::Standby { data } },
                    ),
                    Step::Fault(fault) => Step::Fault(fault),
                }
            },
            ReadPhase::Standby { data } => {
                E1000::standby_eeprom(re, &eeprom, eecd);
                re.push(Action::CondResched);
                Step::Wait(ReadEeprom { eeprom, offset, phase: ReadPhase::Release { data } })
            },
            ReadPhase::Release { data } => {
                E1000::release_eeprom(re, &eeprom, eecd);
                Step::Done(data)
            },
        }
    }
}

} // verus!
