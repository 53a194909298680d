use e1000::defs::{
    E1000_EECD, E1000_EECD_CS, E1000_EECD_DI, E1000_EECD_DO, E1000_EECD_GNT, E1000_EECD_REQ,
    E1000_EECD_SK, E1000_IMS, E1000_RCTL, IORESOURCE_IO, IORESOURCE_MEM,
};
use e1000::probe::{PciResource, Probe, ProbeReply, ProbeRequest};
use e1000::protocol::{Action, Fault, Step};
use e1000::resource::Resource;
use e1000::E1000;

fn memory() -> PciResource {
    PciResource { start: 0xFEBC_0000, len: 0x2_0000, flags: IORESOURCE_MEM }
}

fn ports() -> PciResource {
    PciResource { start: 0xC000, len: 0x40, flags: IORESOURCE_IO }
}

/// A machine with a device in it.
struct Machine {
    resources: Vec<PciResource>,
    words: Vec<u16>,
    eecd: u32,
    bits: Vec<bool>,
    /// The service that fails.
    failing: Option<ProbeRequest>,
}

impl Machine {
    fn new() -> Machine {
        let mut words = vec![0u16; 64];
        words[0] = 0x5452;
        words[1] = 0x1200;
        words[2] = 0x5634;
        let sum = words.iter().fold(0u16, |sum, &word| sum.wrapping_add(word));
        words[63] = 0xBABAu16.wrapping_sub(sum);
        Machine {
            resources: vec![memory(), ports()],
            words,
            eecd: 0,
            bits: Vec::new(),
            failing: None,
        }
    }

    fn eecd(&self) -> u32 {
        let mut value = self.eecd & !(E1000_EECD_DO | E1000_EECD_GNT);
        if value & E1000_EECD_REQ != 0 {
            value |= E1000_EECD_GNT;
        }
        let clocked = self.bits.len();
        if clocked > 9 && clocked <= 25 {
            let address = self.bits[3..9].iter().fold(0, |n, &bit| 2 * n + bit as usize);
            if (self.words[address] >> (25 - clocked)) & 1 == 1 {
                value |= E1000_EECD_DO;
            }
        }
        value
    }

    fn answer(&self, request: ProbeRequest) -> ProbeReply {
        match request {
            ProbeRequest::Resources => ProbeReply::Resources(self.resources.clone()),
            ProbeRequest::Register(reg) => {
                ProbeReply::Register(if reg == E1000_EECD { self.eecd() } else { 0xffff_ffff })
            }
            _ if self.failing == Some(request) => ProbeReply::Outcome(Err(-12)),
            _ => ProbeReply::Outcome(Ok(())),
        }
    }

    fn perform(&mut self, action: &Action) {
        if let Action::Write { offset, value } = *action {
            if offset == E1000_EECD as usize {
                if value & E1000_EECD_CS == 0 || self.eecd & E1000_EECD_CS == 0 {
                    self.bits.clear();
                }
                let rising = value & E1000_EECD_SK != 0 && self.eecd & E1000_EECD_SK == 0;
                if rising && value & E1000_EECD_CS != 0 {
                    self.bits.push(value & E1000_EECD_DI != 0);
                }
                self.eecd = value;
            }
        }
    }

    /// Takes the device over.
    fn probe(&mut self) -> (Vec<Action>, Vec<ProbeRequest>, Step<Probe, Result<[u8; 6], i32>>) {
        let mut re = Resource::new();
        let mut probe = E1000::probe(&mut re);
        let mut actions = re.take();
        let mut requests = Vec::new();
        loop {
            let request = probe.request();
            requests.push(request);
            let step = probe.step(self.answer(request), &mut re);
            for action in re.take() {
                self.perform(&action);
                actions.push(action);
            }
            match step {
                Step::Wait(next) => probe = next,
                step => return (actions, requests, step),
            }
        }
    }
}

#[test]
fn the_first_region_holds_the_registers() {
    assert_eq!(E1000::bar0_length(&vec![memory(), ports()]), 0x2_0000);
    assert_eq!(E1000::bar0_length(&vec![ports()]), 0x40);
}

#[test]
fn the_ports_are_the_first_after_the_first_region() {
    let later = PciResource { start: 0xD000, ..ports() };
    let absent = PciResource { len: 0, ..ports() };
    assert_eq!(E1000::io_base(&vec![memory(), ports(), later]), Some(0xC000));
    assert_eq!(E1000::io_base(&vec![ports(), later]), Some(0xD000));
    assert_eq!(E1000::io_base(&vec![memory(), absent, memory(), later]), Some(0xD000));
    assert_eq!(E1000::io_base(&vec![ports(), memory(), absent]), None);
    assert_eq!(E1000::io_base(&vec![]), None);
}

#[test]
fn a_device_is_taken_over_with_its_address() {
    let mac_addr = [0x52, 0x54, 0x00, 0x12, 0x34, 0x56];
    let (actions, requests, step) = Machine::new().probe();
    assert_eq!(step, Step::Done(Ok(mac_addr)));
    assert_eq!(
        requests[..7],
        [
            ProbeRequest::EnableDevice,
            ProbeRequest::RequestRegions,
            ProbeRequest::Resources,
            ProbeRequest::MapResource { length: 0x2_0000 },
            ProbeRequest::CreateNetdev,
            ProbeRequest::SetDmaMask { mask: 0xffff_ffff },
            ProbeRequest::SetCoherentMask { mask: 0xffff_ffff },
        ]
    );
    assert_eq!(
        requests[requests.len() - 4..],
        [
            ProbeRequest::Register(E1000_RCTL),
            ProbeRequest::AddNapi { weight: 64 },
            ProbeRequest::KeepData,
            ProbeRequest::RegisterNetdev,
        ]
    );
    assert_eq!(requests.len(), 7 + 2 + 1 + 64 * 23 + 3 * 23 + 3 + 4);
    assert_eq!(actions[0], Action::SelectBars { flags: 0x300 });
    assert_eq!(actions[1], Action::SetMaster);
    assert_eq!(actions.last(), Some(&Action::CarrierOff));
    assert_eq!(
        actions[actions.len() - 2],
        Action::Write { offset: E1000_RCTL as usize, value: 0xfffb_ffff }
    );
    let named = actions.iter().position(|&a| a == Action::SetHwAddr { mac_addr }).unwrap();
    assert_eq!(
        actions[named + 1..named + 5],
        [
            Action::SetMtuRange { min: 68, max: 0x3F00 - 18 },
            Action::AllowNoFcs,
            Action::InstallOps,
            Action::Write { offset: 0x1000, value: 0x30 },
        ]
    );
    assert!(!actions.iter().any(|a| matches!(a, Action::ChecksumMismatch { .. })));
}

#[test]
fn taking_over_leaves_interrupts_masked() {
    for action in Machine::new().probe().0 {
        if let Action::Write { offset, .. } = action {
            assert_ne!(offset, E1000_IMS as usize);
        }
    }
}

#[test]
fn a_wrong_checksum_does_not_keep_a_device_from_being_taken_over() {
    let mut machine = Machine::new();
    machine.words[10] = 1;
    let (actions, _, step) = machine.probe();
    assert!(matches!(step, Step::Done(Ok(_))));
    assert!(actions.contains(&Action::ChecksumMismatch { checksum: 0xBABB, expected: 0xBABA }));
}

#[test]
fn a_service_that_fails_ends_the_taking_over() {
    for failing in [
        ProbeRequest::EnableDevice,
        ProbeRequest::RequestRegions,
        ProbeRequest::MapResource { length: 0x2_0000 },
        ProbeRequest::CreateNetdev,
        ProbeRequest::SetDmaMask { mask: 0xffff_ffff },
        ProbeRequest::SetCoherentMask { mask: 0xffff_ffff },
        ProbeRequest::AddNapi { weight: 64 },
        ProbeRequest::KeepData,
        ProbeRequest::RegisterNetdev,
    ] {
        let mut machine = Machine::new();
        machine.failing = Some(failing);
        let (actions, requests, step) = machine.probe();
        assert_eq!(step, Step::Done(Err(-12)));
        assert_eq!(requests.last(), Some(&failing));
        assert!(!actions.contains(&Action::CarrierOff));
    }
}

#[test]
fn a_device_without_regions_is_a_fault() {
    let mut machine = Machine::new();
    machine.resources = vec![];
    assert_eq!(machine.probe().2, Step::Fault(Fault::NoRegions));
}

#[test]
fn a_device_without_ports_is_a_fault_once_its_registers_are_mapped() {
    let mut machine = Machine::new();
    machine.resources = vec![memory()];
    let (_, requests, step) = machine.probe();
    assert_eq!(step, Step::Fault(Fault::NoPorts));
    assert_eq!(requests.last(), Some(&ProbeRequest::MapResource { length: 0x2_0000 }));
}

#[test]
fn ports_at_the_end_are_a_fault() {
    let mut machine = Machine::new();
    machine.resources[1].start = u64::MAX;
    assert_eq!(machine.probe().2, Step::Fault(Fault::PortRange));
}

#[test]
fn an_answer_to_another_question_does_not_take_over() {
    let mut re = Resource::new();
    let probe = Probe::EnableDevice;
    let step = probe.step(ProbeReply::Register(1), &mut re);
    assert_eq!(step, Step::Wait(Probe::EnableDevice));
    let step = probe.step(ProbeReply::Resources(vec![memory()]), &mut re);
    assert_eq!(step, Step::Wait(Probe::EnableDevice));
    let step = Probe::Resources.step(ProbeReply::Outcome(Err(-1)), &mut re);
    assert_eq!(step, Step::Wait(Probe::Resources));
    assert_eq!(re.take(), vec![]);
}

#[test]
fn the_adapter_ends_up_receiving_for_its_address() {
    let (actions, _, _) = Machine::new().probe();
    let last_written = |register: usize| {
        actions.iter().rev().find_map(|action| match action {
            Action::Write { offset, value } if *offset == register => Some(*value),
            _ => None,
        })
    };
    assert_eq!(last_written(0x5400), Some(0x1200_5452));
    assert_eq!(last_written(0x5404), Some(0x8000_5634));
}

#[test]
fn the_registration_is_asked_for_once_after_the_data_is_kept() {
    let (_, requests, _) = Machine::new().probe();
    let registrations: Vec<usize> = (0..requests.len())
        .filter(|&k| requests[k] == ProbeRequest::RegisterNetdev)
        .collect();
    assert_eq!(registrations, vec![requests.len() - 1]);
    assert_eq!(requests[requests.len() - 2], ProbeRequest::KeepData);
}
