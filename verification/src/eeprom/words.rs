//! What the driver takes from the EEPROM: the adapter's address and the checksum.

use vstd::array::spec_array_update;
use vstd::prelude::*;
use crate::defs::{EEPROM_CHECKSUM_REG, EEPROM_SUM, NODE_ADDRESS_SIZE};
use crate::eeprom::read::{ReadEeprom, read_eeprom};
use crate::eeprom::wires::EepromInfo;
use crate::protocol::{Action, Fault, Protocol, Step};
use crate::resource::Resource;
use crate::E1000;

verus! {

/// `mac_addr` with the bytes of `word` at `i` and after it, the low byte first.
pub open spec fn with_word(mac_addr: [u8; 6], i: int, word: u16) -> [u8; 6] {
    spec_array_update(
        spec_array_update(mac_addr, i, (word & 0x00ff) as u8),
        i + 1,
        (word >> 8) as u8,
    )
}

/// Reading the adapter's address, which the first three words hold.
#[derive(Clone, Copy, PartialEq, Eq, Debug)]
pub struct ReadMacAddr {
    pub eeprom: EepromInfo,
    /// The first byte of the address that the word being read holds.
    pub i: u32,
    /// The address as far as it is known.
    pub mac_addr: [u8; 6],
    pub read: ReadEeprom,
}

/// The reading of the address, about to begin.
pub open spec fn read_mac_addr(eeprom: EepromInfo) -> ReadMacAddr {
    ReadMacAddr { eeprom, i: 0, mac_addr: [0u8, 0, 0, 0, 0, 0], read: read_eeprom(eeprom, 0) }
}

impl ReadMacAddr {
    /// A word of the address is being read.
    pub open spec fn wf(self) -> bool {
        &&& self.eeprom.wf()
        &&& self.eeprom.word_size >= 3
        &&& self.read.eeprom == self.eeprom
        &&& self.i == 0 || self.i == 2 || self.i == 4
    }
}

impl Protocol for ReadMacAddr {
    type Request = u32;

    type Reply = u32;

    type Result = [u8; 6];

    open spec fn asks(self) -> u32 {
        self.read.asks()
    }

    open spec fn next(self, reply: u32) -> (Seq<Action>, Step<ReadMacAddr, [u8; 6]>) {
        (
            self.read.next(reply).0,
            match self.read.next(reply).1 {
                Step::Wait(read) => Step::Wait(ReadMacAddr { read, ..self }),
                Step::Done(word) => {
                    let mac_addr = with_word(self.mac_addr, self.i as int, word);
                    if self.i + 2 < NODE_ADDRESS_SIZE {
                        Step::Wait(
                            ReadMacAddr {
                                eeprom: self.eeprom,
                                i: (self.i + 2) as u32,
                                mac_addr,
                                read: read_eeprom(self.eeprom, ((self.i + 2) / 2) as u16),
                            },
                        )
                    } else {
                        Step::Done(mac_addr)
                    }
                },
                Step::Fault(fault) => Step::Fault(fault),
            },
        )
    }
}

impl E1000 {
    /// Begins to read the adapter's address.
    pub fn read_mac_addr(eeprom: &EepromInfo) -> (read: ReadMacAddr)
        requires
            eeprom.wf(),
            eeprom.word_size >= 3,
        ensures
            read == read_mac_addr(*eeprom),
            read.wf(),
    {
        let mac_addr: [u8; 6] = [0u8; 6];
        assert(mac_addr =~= [0u8, 0, 0, 0, 0, 0]);
        ReadMacAddr {
            eeprom: *eeprom,
            i: 0,
            mac_addr,
            read: E1000::e1000_read_eeprom(eeprom, 0, 1),
        }
    }
}

impl ReadMacAddr {
    /// The register to read next.
    pub fn register(&self) -> (reg: u32)
        ensures
            reg == self.asks(),
    {
        self.read.register()
    }

    /// Goes on with what the register held.
    pub fn step(self, reply: u32, re: &mut Resource) -> (step: Step<ReadMacAddr, [u8; 6]>)
        requires
            self.wf(),
        ensures
            final(re)@ == old(re)@ + self.next(reply).0,
            step == self.next(reply).1,
            step matches Step::Wait(m) ==> m.wf(),
    {
        let ReadMacAddr { eeprom, i, mac_addr, read } = self;
        match read.step(reply, re) {
            Step::Wait(read) => Step::Wait(ReadMacAddr { eeprom, i, mac_addr, read }),
            Step::Done(word) => {
                let mut mac_addr = mac_addr;
                let low: u8 = (word & 0x00ff) as u8;
                let high: u8 = (word >> 8) as u8;
                mac_addr[i as usize] = low;
                mac_addr[i as usize + 1] = high;
                let i: u32 = i + 2;
                if i < NODE_ADDRESS_SIZE {
                    assert(i >> 1 == i / 2) by (bit_vector);
                    let read = E1000::e1000_read_eeprom(&eeprom, (i >> 1) as u16, 1);
                    Step::Wait(ReadMacAddr { eeprom, i, mac_addr, read })
                } else {
                    Step::Done(mac_addr)
                }
            },
            Step::Fault(fault) => Step::Fault(fault),
        }
    }
}

/// What is queued when the words of the EEPROM add up to `checksum`.
pub open spec fn checksum_report(checksum: u16) -> Seq<Action> {
    if checksum != EEPROM_SUM {
        seq![Action::ChecksumMismatch { checksum, expected: EEPROM_SUM }]
    } else {
        seq![]
    }
}

/// Adding up the words of the EEPROM up to and with the checksum.
#[derive(Clone, Copy, PartialEq, Eq, Debug)]
pub struct ValidateEepromChecksum {
    pub eeprom: EepromInfo,
    /// The word being read.
    pub i: u32,
    /// The sum of the words before it.
    pub checksum: u16,
    pub read: ReadEeprom,
}

/// The adding up of the words, about to begin.
pub open spec fn validate_eeprom_checksum(eeprom: EepromInfo) -> ValidateEepromChecksum {
    ValidateEepromChecksum { eeprom, i: 0, checksum: 0, read: read_eeprom(eeprom, 0) }
}

impl ValidateEepromChecksum {
    /// A word up to the checksum is being read.
    pub open spec fn wf(self) -> bool {
        &&& self.eeprom.wf()
        &&& self.eeprom.word_size > EEPROM_CHECKSUM_REG
        &&& self.read.eeprom == self.eeprom
        &&& self.i <= EEPROM_CHECKSUM_REG
    }
}

impl Protocol for ValidateEepromChecksum {
    type Request = u32;

    type Reply = u32;

    type Result = ();

    open spec fn asks(self) -> u32 {
        self.read.asks()
    }

    open spec fn next(self, reply: u32) -> (Seq<Action>, Step<ValidateEepromChecksum, ()>) {
        let (actions, step) = self.read.next(reply);
        match step {
            Step::Wait(read) => (actions, Step::Wait(ValidateEepromChecksum { read, ..self })),
            Step::Done(word) => {
                let checksum = ((self.checksum + word) % 0x1_0000) as u16;
                if self.i < EEPROM_CHECKSUM_REG {
                    (
                        actions,
                        Step::Wait(
                            ValidateEepromChecksum {
                                eeprom: self.eeprom,
                                i: (self.i + 1) as u32,
                                checksum,
                                read: read_eeprom(self.eeprom, (self.i + 1) as u16),
                            },
                        ),
                    )
                } else {
                    (actions + checksum_report(checksum), Step::Done(()))
                }
            },
            Step::Fault(fault) => (actions, Step::Fault(fault)),
        }
    }
}

impl E1000 {
    /// Begins to check the sum of the EEPROM's words.
    pub fn validate_eeprom_checksum(eeprom: &EepromInfo) -> (validate: ValidateEepromChecksum)
        requires
            eeprom.wf(),
            eeprom.word_size > EEPROM_CHECKSUM_REG,
        ensures
            validate == validate_eeprom_checksum(*eeprom),
            validate.wf(),
    {
        ValidateEepromChecksum {
            eeprom: *eeprom,
            i: 0,
            checksum: 0,
            read: E1000::e1000_read_eeprom(eeprom, 0, 1),
        }
    }
}

impl ValidateEepromChecksum {
    /// The register to read next.
    pub fn register(&self) -> (reg: u32)
        ensures
            reg == self.asks(),
    {
        self.read.register()
    }

    /// Goes on with what the register held.
    pub fn step(self, reply: u32, re: &mut Resource) -> (step: Step<ValidateEepromChecksum, ()>)
        requires
            self.wf(),
        ensures
            final(re)@ == old(re)@ + self.next(reply).0,
            step == self.next(reply).1,
            step matches Step::Wait(m) ==> m.wf(),
    {
        let ValidateEepromChecksum { eeprom, i, checksum, read } = self;
        match read.step(reply, re) {
            Step::Wait(read) => Step::Wait(ValidateEepromChecksum { eeprom, i, checksum, read }),
            Step::Done(word) => {
                let checksum: u16 = checksum.wrapping_add(word);
                if i < EEPROM_CHECKSUM_REG {
                    let i: u32 = i + 1;
                    let read = E1000::e1000_read_eeprom(&eeprom, i as u16, 1);
                    return Step::Wait(ValidateEepromChecksum { eeprom, i, checksum, read });
                }
                if checksum != EEPROM_SUM as u16 {
                    re.push(Action::ChecksumMismatch { checksum, expected: EEPROM_SUM });
                }
                assert(re@ =~= old(re)@ + self.next(reply).0);
                Step::Done(())
            },
            Step::Fault(fault) => Step::Fault(fault),
        }
    }
}

/// The reading of the address and the check of the sum meet a fault just when the reading of the
/// word at hand does, and it is the same fault.
pub proof fn law_words_fault(
    address: ReadMacAddr,
    validate: ValidateEepromChecksum,
    reply: u32,
    fault: Fault,
)
    ensures
        address.next(reply).1 == Step::<ReadMacAddr, [u8; 6]>::Fault(fault)
            <==> address.read.next(reply).1 == Step::<ReadEeprom, u16>::Fault(fault),
        validate.next(reply).1 == Step::<ValidateEepromChecksum, ()>::Fault(fault)
            <==> validate.read.next(reply).1 == Step::<ReadEeprom, u16>::Fault(fault),
{
}

} // verus!
