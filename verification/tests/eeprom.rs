use e1000::defs::{
    E1000_EECD, E1000_EECD_CS, E1000_EECD_DI, E1000_EECD_DO, E1000_EECD_GNT, E1000_EECD_REQ,
    E1000_EECD_SIZE, E1000_EECD_SK, E1000_STATUS,
};
use e1000::eeprom::read::{AcquireEeprom, ReadEeprom, ShiftInEeBits};
use e1000::eeprom::wires::EepromInfo;
use e1000::eeprom::words::{ReadMacAddr, ValidateEepromChecksum};
use e1000::protocol::{Action, Fault, Step};
use e1000::resource::Resource;
use e1000::E1000;

/// A microwire EEPROM behind the control register.
struct Chip {
    words: Vec<u16>,
    opcode_bits: usize,
    address_bits: usize,
    eecd: u32,
    bits: Vec<bool>,
}

fn number(bits: &[bool]) -> usize {
    bits.iter().fold(0, |n, &bit| 2 * n + bit as usize)
}

impl Chip {
    fn new(words: Vec<u16>, eeprom: &EepromInfo) -> Chip {
        Chip {
            words,
            opcode_bits: eeprom.opcode_bits as usize,
            address_bits: eeprom.address_bits as usize,
            eecd: 0,
            bits: Vec::new(),
        }
    }

    fn read(&self) -> u32 {
        let mut value = self.eecd & !(E1000_EECD_DO | E1000_EECD_GNT);
        if value & E1000_EECD_REQ != 0 {
            value |= E1000_EECD_GNT;
        }
        let command = self.opcode_bits + self.address_bits;
        let clocked = self.bits.len();
        if clocked > command && clocked <= command + 16 {
            let opcode = number(&self.bits[..self.opcode_bits]);
            let address = number(&self.bits[self.opcode_bits..command]);
            let bit = command + 16 - clocked;
            if opcode == 6 && (self.words[address] >> bit) & 1 == 1 {
                value |= E1000_EECD_DO;
            }
        }
        value
    }

    fn perform(&mut self, action: &Action) {
        if let Action::Write { offset, value } = *action {
            if offset == E1000_EECD as usize {
                if value & E1000_EECD_CS == 0 || self.eecd & E1000_EECD_CS == 0 {
                    self.bits.clear();
                }
                let rising = value & E1000_EECD_SK != 0 && self.eecd & E1000_EECD_SK == 0;
                if rising && value & E1000_EECD_CS != 0 {
                    self.bits.push(value & E1000_EECD_DI != 0);
                }
                self.eecd = value;
            }
        }
    }
}

fn small() -> EepromInfo {
    E1000::init_eeprom_params(0)
}

fn write(value: u32) -> Action {
    Action::Write { offset: E1000_EECD as usize, value }
}

fn held(value: u32) -> Vec<Action> {
    vec![write(value), Action::Read { offset: E1000_STATUS as usize }, Action::Udelay(50)]
}

fn read_word(chip: &mut Chip, eeprom: &EepromInfo, offset: u16) -> (u16, usize) {
    let mut re = Resource::new();
    let mut read: ReadEeprom = E1000::e1000_read_eeprom(eeprom, offset, 1);
    let mut questions = 0;
    loop {
        questions += 1;
        assert_eq!(read.register(), E1000_EECD);
        let step = read.step(chip.read(), &mut re);
        for action in re.take().iter() {
            chip.perform(action);
        }
        match step {
            Step::Wait(next) => read = next,
            Step::Done(word) => return (word, questions),
            Step::Fault(fault) => panic!("{:?}", fault),
        }
    }
}

fn read_address(chip: &mut Chip, eeprom: &EepromInfo) -> [u8; 6] {
    let mut re = Resource::new();
    let mut read: ReadMacAddr = E1000::read_mac_addr(eeprom);
    loop {
        let step = read.step(chip.read(), &mut re);
        for action in re.take().iter() {
            chip.perform(action);
        }
        match step {
            Step::Wait(next) => read = next,
            Step::Done(mac_addr) => return mac_addr,
            Step::Fault(fault) => panic!("{:?}", fault),
        }
    }
}

fn check_sum(chip: &mut Chip, eeprom: &EepromInfo) -> (Vec<Action>, usize) {
    let mut re = Resource::new();
    let mut validate: ValidateEepromChecksum = E1000::validate_eeprom_checksum(eeprom);
    let mut reports = Vec::new();
    let mut questions = 0;
    loop {
        questions += 1;
        let step = validate.step(chip.read(), &mut re);
        for action in re.take().iter() {
            chip.perform(action);
            if let Action::ChecksumMismatch { .. } = action {
                reports.push(*action);
            }
        }
        match step {
            Step::Wait(next) => validate = next,
            Step::Done(()) => return (reports, questions),
            Step::Fault(fault) => panic!("{:?}", fault),
        }
    }
}

#[test]
fn the_size_bit_tells_the_shape() {
    let eeprom = E1000::init_eeprom_params(0);
    assert_eq!(
        eeprom,
        EepromInfo { word_size: 64, opcode_bits: 3, address_bits: 6, delay_usec: 50 }
    );
    let eeprom = E1000::init_eeprom_params(E1000_EECD_SIZE | E1000_EECD_SK);
    assert_eq!(
        eeprom,
        EepromInfo { word_size: 256, opcode_bits: 3, address_bits: 8, delay_usec: 50 }
    );
}

#[test]
fn every_word_of_a_small_eeprom_is_read_back() {
    let words: Vec<u16> = (0..64u32).map(|i| (i * 40503 + 7) as u16).collect();
    let mut chip = Chip::new(words.clone(), &small());
    for offset in 0..64u16 {
        let (word, questions) = read_word(&mut chip, &small(), offset);
        assert_eq!(word, words[offset as usize]);
        assert_eq!(questions, 23);
        assert_eq!(
            chip.eecd & (E1000_EECD_CS | E1000_EECD_SK | E1000_EECD_DI | E1000_EECD_REQ),
            0
        );
    }
}

#[test]
fn the_last_word_of_a_large_eeprom_is_read_back() {
    let eeprom = E1000::init_eeprom_params(E1000_EECD_SIZE);
    let mut words = vec![0u16; 256];
    words[255] = 0x8001;
    let mut chip = Chip::new(words, &eeprom);
    assert_eq!(read_word(&mut chip, &eeprom, 255).0, 0x8001);
    assert_eq!(read_word(&mut chip, &eeprom, 254).0, 0);
}

#[test]
fn the_address_is_in_the_first_three_words_low_byte_first() {
    let mut words = vec![0xffffu16; 64];
    words[0] = 0x5452;
    words[1] = 0x1200;
    words[2] = 0x5634;
    let mut chip = Chip::new(words, &small());
    assert_eq!(read_address(&mut chip, &small()), [0x52, 0x54, 0x00, 0x12, 0x34, 0x56]);
}

#[test]
fn a_right_checksum_is_not_reported() {
    let mut words: Vec<u16> = (0..64u32).map(|i| (i * 5003) as u16).collect();
    words[63] = 0;
    let sum = words.iter().fold(0u16, |sum, &word| sum.wrapping_add(word));
    words[63] = 0xBABAu16.wrapping_sub(sum);
    let mut chip = Chip::new(words, &small());
    assert_eq!(check_sum(&mut chip, &small()), (vec![], 64 * 23));
}

#[test]
fn a_wrong_checksum_is_reported_and_nothing_else_happens() {
    let mut words = vec![0u16; 64];
    words[0] = 0xBABA;
    words[63] = 1;
    let mut chip = Chip::new(words, &small());
    assert_eq!(
        check_sum(&mut chip, &small()).0,
        vec![Action::ChecksumMismatch { checksum: 0xBABB, expected: 0xBABA }]
    );
}

#[test]
fn words_after_the_checksum_do_not_count() {
    let eeprom = E1000::init_eeprom_params(E1000_EECD_SIZE);
    let mut words = vec![0u16; 256];
    words[63] = 0xBABA;
    words[64] = 1;
    let mut chip = Chip::new(words, &eeprom);
    assert_eq!(check_sum(&mut chip, &eeprom).0, vec![]);
}

#[test]
fn access_is_asked_for_and_the_eeprom_selected() {
    let mut re = Resource::new();
    let acquire = AcquireEeprom::Request;
    assert_eq!(acquire.register(), E1000_EECD);
    let step = acquire.step(0x300, &mut re);
    assert_eq!(step, Step::Wait(AcquireEeprom::Grant { attempts: 0 }));
    assert_eq!(re.take(), vec![write(0x340)]);
    let step = AcquireEeprom::Grant { attempts: 0 }.step(0x3C5, &mut re);
    assert_eq!(step, Step::Done(()));
    assert_eq!(
        re.take(),
        vec![
            write(0x3C0),
            write(0x3C2),
            Action::Read { offset: E1000_STATUS as usize },
            Action::ConstUdelay(1),
        ]
    );
}

#[test]
fn access_granted_on_the_last_attempt_is_in_time() {
    let mut re = Resource::new();
    let mut acquire = AcquireEeprom::Grant { attempts: 0 };
    for _ in 0..1000 {
        match acquire.step(0, &mut re) {
            Step::Wait(next) => acquire = next,
            step => panic!("{:?}", step),
        }
        assert_eq!(re.take(), vec![Action::ConstUdelay(5)]);
    }
    assert_eq!(acquire, AcquireEeprom::Grant { attempts: 1000 });
    assert_eq!(acquire.step(E1000_EECD_GNT, &mut re), Step::Done(()));
}

#[test]
fn access_refused_once_more_is_a_fault() {
    let mut re = Resource::new();
    let mut read = E1000::e1000_read_eeprom(&small(), 0, 1);
    for answers in 1.. {
        match read.step(0, &mut re) {
            Step::Wait(next) => read = next,
            step => {
                assert_eq!(step, Step::Fault(Fault::EepromNotGranted));
                assert_eq!(answers, 1 + 1001);
                return;
            }
        }
    }
}

#[test]
fn bits_go_out_highest_first_between_clock_pulses() {
    let mut re = Resource::new();
    E1000::shift_out_ee_bits(&mut re, &small(), 0x4A, 0b1110, 2);
    let mut expected = Vec::new();
    expected.extend(held(0x46));
    expected.extend(held(0x47));
    expected.extend(held(0x46));
    expected.extend(held(0x42));
    expected.extend(held(0x43));
    expected.extend(held(0x42));
    expected.push(write(0x42));
    assert_eq!(re.take(), expected);
}

#[test]
fn the_clock_is_raised_and_lowered_in_place() {
    let mut re = Resource::new();
    let mut eecd = 0x42;
    E1000::raise_ee_clk(&mut re, &small(), &mut eecd);
    assert_eq!(eecd, 0x43);
    assert_eq!(re.take(), held(0x43));
    E1000::lower_ee_clk(&mut re, &small(), &mut eecd);
    assert_eq!(eecd, 0x42);
    assert_eq!(re.take(), held(0x42));
}

#[test]
fn standby_deselects_and_selects_again() {
    let mut re = Resource::new();
    E1000::standby_eeprom(&mut re, &small(), 0xC3);
    let mut expected = Vec::new();
    expected.extend(held(0xC0));
    expected.extend(held(0xC1));
    expected.extend(held(0xC3));
    expected.extend(held(0xC2));
    assert_eq!(re.take(), expected);
}

#[test]
fn release_pulses_the_clock_and_gives_the_request_up() {
    let mut re = Resource::new();
    E1000::release_eeprom(&mut re, &small(), 0xC6);
    let mut expected = vec![write(0xC0)];
    expected.extend(held(0xC1));
    expected.extend(held(0xC0));
    expected.push(write(0x80));
    assert_eq!(re.take(), expected);
}

fn shift_in(samples: &[u32]) -> (u16, Vec<Action>) {
    let mut re = Resource::new();
    let start = ShiftInEeBits::Start { eeprom: small(), count: samples.len() as u16 };
    let mut shift_in = match start.step(0xCE, &mut re) {
        Step::Wait(next) => next,
        step => panic!("{:?}", step),
    };
    for (i, &sample) in samples.iter().enumerate() {
        match shift_in.step(sample, &mut re) {
            Step::Wait(next) => shift_in = next,
            Step::Done(data) => {
                assert_eq!(i, samples.len() - 1);
                return (data, re.take());
            }
            Step::Fault(fault) => panic!("{:?}", fault),
        }
    }
    panic!("not enough samples")
}

#[test]
fn bits_come_in_highest_first_with_the_data_wire_low() {
    let (data, actions) = shift_in(&[0xCB, 0xC7, 0xCF]);
    assert_eq!(data, 0b101);
    let mut expected = held(0xC3);
    expected.extend(held(0xCA));
    expected.extend(held(0xCB));
    expected.extend(held(0xC2));
    expected.extend(held(0xC3));
    expected.extend(held(0xCA));
    assert_eq!(actions, expected);
    for action in actions {
        if let Action::Write { value, .. } = action {
            assert_eq!(value & E1000_EECD_DI, 0);
        }
    }
}

#[test]
fn of_many_bits_the_last_sixteen_stay() {
    let mut samples = vec![E1000_EECD_DO; 4];
    samples.extend(vec![0; 14]);
    samples.push(E1000_EECD_DO);
    assert_eq!(shift_in(&samples).0, 0x8001);
    assert_eq!(shift_in(&vec![E1000_EECD_DO; 20]).0, 0xffff);
}

#[test]
fn no_bits_are_no_number() {
    let mut re = Resource::new();
    let start = ShiftInEeBits::Start { eeprom: small(), count: 0 };
    assert_eq!(start.step(0xFF, &mut re), Step::Done(0));
    assert_eq!(re.take(), vec![]);
}
