//! Taking a device over: the kernel's side is prepared, the adapter is reset, its address is read,
//! and it is registered as a network device.

use vstd::prelude::*;
use crate::bits::lemma_set_clear;
use crate::control::irq_disable_actions;
use crate::defs::{
    E1000_CTRL, E1000_CTRL_RST, E1000_EECD, E1000_MANC, E1000_RA, E1000_RCTL, E1000_RCTL_VFE,
    E1000_TXDCTL, ETH_FCS_LEN, ETH_HLEN, ETH_MIN_MTU, IORESOURCE_IO, IORESOURCE_MEM,
    MAX_JUMBO_FRAME_SIZE,
};
use crate::eeprom::chip::{
    Chip, address_in, at_rest, converse, heard, law_read_mac_addr, law_validate_eeprom_checksum,
    lemma_heard, word_questions,
};
use crate::eeprom::wires::{EepromInfo, eeprom_params, law_eeprom_shape};
use crate::eeprom::words::{
    ReadMacAddr, ValidateEepromChecksum, read_mac_addr, validate_eeprom_checksum,
};
use crate::filter::{rar_high, rar_low};
use crate::protocol::{
    Action, Event, Fault, Protocol, Step, did, last_written, lemma_last_written, lemma_not_written,
    lemma_run_join, lemma_run_last, lemma_run_one, lemma_run_push, lemma_run_to_end, retold, run,
    told,
};
use crate::reset::{
    Reset, ResetHw, init_hw_actions, law_own_address, quiesce_actions, reset_actions,
    settle_actions, tx_write_back,
};
use crate::resource::{Resource, io_write, law_reg_write, reg_write};
use crate::E1000;

verus! {

/// A region of a PCI device.
#[derive(Clone, Copy, PartialEq, Eq, Debug)]
pub struct PciResource {
    pub start: u64,
    pub len: u64,
    pub flags: u64,
}

impl PciResource {
    /// The region is there and consists of I/O ports.
    pub open spec fn is_ports(self) -> bool {
        self.len != 0 && self.flags & IORESOURCE_IO != 0
    }
}

/// Where the first I/O ports among the regions from `i` on start.
pub open spec fn first_ports(resources: Seq<PciResource>, i: int) -> Option<u64>
    decreases resources.len() - i,
{
    if i < 0 || i >= resources.len() {
        None
    } else if resources[i].is_ports() {
        Some(resources[i].start)
    } else {
        first_ports(resources, i + 1)
    }
}

impl E1000 {
    /// Bytes in the first region of the device, which holds the registers.
    pub fn bar0_length(resources: &Vec<PciResource>) -> (length: usize)
        requires
            resources@.len() > 0,
        ensures
            length == resources@[0].len as usize,
    {
        resources[0].len as usize
    }

    /// Where the I/O ports of the device start; the first region does not count.
    pub fn io_base(resources: &Vec<PciResource>) -> (base: Option<u64>)
        ensures
            base == first_ports(resources@, 1),
    {
        let mut i: usize = 1;
        while i < resources.len()
            invariant
                1 <= i,
                first_ports(resources@, 1) == first_ports(resources@, i as int),
            decreases resources.len() - i,
        {
            let r = resources[i];
            if r.len != 0 && r.flags & IORESOURCE_IO > 0 {
                return Some(r.start);
            }
            i += 1;
        }
        None
    }
}

/// A question that the taking over can have open. Those that ask for a service of the kernel are
/// answered with its outcome.
#[derive(Clone, Copy, PartialEq, Eq, Debug)]
pub enum ProbeRequest {
    /// Enable the device.
    EnableDevice,
    /// Reserve the regions chosen.
    RequestRegions,
    /// Which regions does the device have?
    Resources,
    /// Map the first region.
    MapResource { length: usize },
    /// Make a network device.
    CreateNetdev,
    /// Bound the addresses that the device can reach.
    SetDmaMask { mask: u64 },
    /// Bound the addresses that the device can share.
    SetCoherentMask { mask: u64 },
    /// What does the register hold?
    Register(u32),
    /// Have the driver polled, `weight` packets at a time.
    AddNapi { weight: i32 },
    /// Keep the driver's data with the device.
    KeepData,
    /// Register the network device.
    RegisterNetdev,
}

/// An answer to a question of the taking over.
#[derive(PartialEq, Eq, Debug)]
pub enum ProbeReply {
    Outcome(Result<(), i32>),
    Resources(Vec<PciResource>),
    Register(u32),
}

/// Taking a device over.
#[derive(Clone, Copy, PartialEq, Eq, Debug)]
#[allow(inconsistent_fields)]
pub enum Probe {
    EnableDevice,
    RequestRegions,
    Resources,
    MapResource { length: usize, io_base: Option<u64> },
    CreateNetdev { io_base: u64 },
    SetDmaMask { io_base: u64 },
    SetCoherentMask { io_base: u64 },
    ResetHw { io_base: u64, reset: ResetHw },
    Params { io_base: u64 },
    Validate { io_base: u64, validate: ValidateEepromChecksum },
    ReadMac { io_base: u64, read: ReadMacAddr },
    Reset { mac_addr: [u8; 6], reset: Reset },
    Vlan { mac_addr: [u8; 6] },
    AddNapi { mac_addr: [u8; 6] },
    KeepData { mac_addr: [u8; 6] },
    Register { mac_addr: [u8; 6] },
}

/// Prepare the network device for the address read.
pub open spec fn netdev_actions(mac_addr: [u8; 6]) -> Seq<Action> {
    seq![
        Action::SetHwAddr { mac_addr },
        Action::SetMtuRange {
            min: ETH_MIN_MTU,
            max: (MAX_JUMBO_FRAME_SIZE - (ETH_HLEN + ETH_FCS_LEN)) as u32,
        },
        Action::AllowNoFcs,
        Action::InstallOps,
    ]
}

/// After a service of the kernel: on with `then` after the actions `actions`, or the end with the
/// kernel's error.
pub open spec fn on_success(outcome: Result<(), i32>, actions: Seq<Action>, then: Probe) -> (
    Seq<Action>,
    Step<Probe, Result<[u8; 6], i32>>,
) {
    match outcome {
        Ok(_) => (actions, Step::Wait(then)),
        Err(error) => (seq![], Step::Done(Err(error))),
    }
}

impl Probe {
    /// The EEPROM procedures are sound.
    pub open spec fn wf(self) -> bool {
        match self {
            Probe::Validate { validate, .. } => validate.wf(),
            Probe::ReadMac { read, .. } => read.wf(),
            _ => true,
        }
    }
}

impl Protocol for Probe {
    type Request = ProbeRequest;

    type Reply = ProbeReply;

    type Result = Result<[u8; 6], i32>;

    open spec fn asks(self) -> ProbeRequest {
        match self {
            Probe::EnableDevice => ProbeRequest::EnableDevice,
            Probe::RequestRegions => ProbeRequest::RequestRegions,
            Probe::Resources => ProbeRequest::Resources,
            Probe::MapResource { length, .. } => ProbeRequest::MapResource { length },
            Probe::CreateNetdev { .. } => ProbeRequest::CreateNetdev,
            Probe::SetDmaMask { .. } => ProbeRequest::SetDmaMask { mask: 0xffff_ffff },
            Probe::SetCoherentMask { .. } => ProbeRequest::SetCoherentMask { mask: 0xffff_ffff },
            Probe::ResetHw { reset, .. } => ProbeRequest::Register(reset.asks()),
            Probe::Params { .. } => ProbeRequest::Register(E1000_EECD),
            Probe::Validate { validate, .. } => ProbeRequest::Register(validate.asks()),
            Probe::ReadMac { read, .. } => ProbeRequest::Register(read.asks()),
            Probe::Reset { reset, .. } => ProbeRequest::Register(reset.asks()),
            Probe::Vlan { .. } => ProbeRequest::Register(E1000_RCTL),
            Probe::AddNapi { .. } => ProbeRequest::AddNapi { weight: 64 },
            Probe::KeepData { .. } => ProbeRequest::KeepData,
            Probe::Register { .. } => ProbeRequest::RegisterNetdev,
        }
    }

    /// An answer to another question leads to nothing.
    open spec fn next(self, reply: ProbeReply) -> (
        Seq<Action>,
        Step<Probe, Result<[u8; 6], i32>>,
    ) {
        match (self, reply) {
            (Probe::EnableDevice, ProbeReply::Outcome(outcome)) => on_success(
                outcome,
                seq![],
                Probe::RequestRegions,
            ),
            (Probe::RequestRegions, ProbeReply::Outcome(outcome)) => on_success(
                outcome,
                seq![Action::SetMaster],
                Probe::Resources,
            ),
            (Probe::Resources, ProbeReply::Resources(resources)) => if resources@.len() == 0 {
                (seq![], Step::Fault(Fault::NoRegions))
            } else {
                (
                    seq![],
                    Step::Wait(
                        Probe::MapResource {
                            length: resources@[0].len as usize,
                            io_base: first_ports(resources@, 1),
                        },
                    ),
                )
            },
            (Probe::MapResource { io_base, .. }, ProbeReply::Outcome(outcome)) => match outcome {
                Ok(_) => match io_base {
                    Some(io_base) => (seq![], Step::Wait(Probe::CreateNetdev { io_base })),
                    None => (seq![], Step::Fault(Fault::NoPorts)),
                },
                Err(error) => (seq![], Step::Done(Err(error))),
            },
            (Probe::CreateNetdev { io_base }, ProbeReply::Outcome(outcome)) => on_success(
                outcome,
                seq![],
                Probe::SetDmaMask { io_base },
            ),
            (Probe::SetDmaMask { io_base }, ProbeReply::Outcome(outcome)) => on_success(
                outcome,
                seq![],
                Probe::SetCoherentMask { io_base },
            ),
            (Probe::SetCoherentMask { io_base }, ProbeReply::Outcome(outcome)) => on_success(
                outcome,
                irq_disable_actions() + quiesce_actions(),
                Probe::ResetHw { io_base, reset: ResetHw::Restart { io_base } },
            ),
            (Probe::ResetHw { io_base, reset }, ProbeReply::Register(value)) => (
                reset.next(value).0,
                match reset.next(value).1 {
                    Step::Wait(reset) => Step::Wait(Probe::ResetHw { io_base, reset }),
                    Step::Done(_) => Step::Wait(Probe::Params { io_base }),
                    Step::Fault(fault) => Step::Fault(fault),
                },
            ),
            (Probe::Params { io_base }, ProbeReply::Register(eecd)) => (
                seq![],
                Step::Wait(
                    Probe::Validate {
                        io_base,
                        validate: validate_eeprom_checksum(eeprom_params(eecd)),
                    },
                ),
            ),
            (Probe::Validate { io_base, validate }, ProbeReply::Register(value)) => (
                validate.next(value).0,
                match validate.next(value).1 {
                    Step::Wait(validate) => Step::Wait(Probe::Validate { io_base, validate }),
                    Step::Done(_) => Step::Wait(
                        Probe::ReadMac { io_base, read: read_mac_addr(validate.eeprom) },
                    ),
                    Step::Fault(fault) => Step::Fault(fault),
                },
            ),
            (Probe::ReadMac { io_base, read }, ProbeReply::Register(value)) => {
                let (actions, step) = read.next(value);
                match step {
                    Step::Wait(read) => (actions, Step::Wait(Probe::ReadMac { io_base, read })),
                    Step::Done(mac_addr) => (
                        actions + netdev_actions(mac_addr) + reset_actions(),
                        Step::Wait(
                            Probe::Reset {
                                mac_addr,
                                reset: Reset::Hw {
                                    mac_addr,
                                    reset: ResetHw::Restart { io_base },
                                },
                            },
                        ),
                    ),
                    Step::Fault(fault) => (actions, Step::Fault(fault)),
                }
            },
            (Probe::Reset { mac_addr, reset }, ProbeReply::Register(value)) => (
                reset.next(value).0,
                match reset.next(value).1 {
                    Step::Wait(reset) => Step::Wait(Probe::Reset { mac_addr, reset }),
                    Step::Done(_) => Step::Wait(Probe::Vlan { mac_addr }),
                    Step::Fault(fault) => Step::Fault(fault),
                },
            ),
            (Probe::Vlan { mac_addr }, ProbeReply::Register(rctl)) => (
                seq![reg_write(E1000_RCTL, rctl & !E1000_RCTL_VFE)],
                Step::Wait(Probe::AddNapi { mac_addr }),
            ),
            (Probe::AddNapi { mac_addr }, ProbeReply::Outcome(outcome)) => on_success(
                outcome,
                seq![],
                Probe::KeepData { mac_addr },
            ),
            (Probe::KeepData { mac_addr }, ProbeReply::Outcome(outcome)) => on_success(
                outcome,
                seq![],
                Probe::Register { mac_addr },
            ),
            (Probe::Register { mac_addr }, ProbeReply::Outcome(outcome)) => match outcome {
                Ok(_) => (seq![Action::CarrierOff], Step::Done(Ok(mac_addr))),
                Err(error) => (seq![], Step::Done(Err(error))),
            },
            _ => (seq![], Step::Wait(self)),
        }
    }
}

impl E1000 {
    /// Begins to take a device over.
    pub fn probe(re: &mut Resource) -> (probe: Probe)
        ensures
            final(re)@ == old(re)@.push(Action::SelectBars { flags: 0x300 }),
            probe == Probe::EnableDevice,
    {
        assert(0x200u64 | 0x100u64 == 0x300) by (bit_vector);
        re.push(Action::SelectBars { flags: IORESOURCE_MEM | IORESOURCE_IO });
        Probe::EnableDevice
    }
}

impl Probe {
    /// The question that is open.
    pub fn request(&self) -> (request: ProbeRequest)
        ensures
            request == self.asks(),
    {
        match self {
            Probe::EnableDevice => ProbeRequest::EnableDevice,
            Probe::RequestRegions => ProbeRequest::RequestRegions,
            Probe::Resources => ProbeRequest::Resources,
            Probe::MapResource { length, .. } => ProbeRequest::MapResource { length: *length },
            Probe::CreateNetdev { .. } => ProbeRequest::CreateNetdev,
            Probe::SetDmaMask { .. } => ProbeRequest::SetDmaMask { mask: 0xffff_ffff },
            Probe::SetCoherentMask { .. } => ProbeRequest::SetCoherentMask { mask: 0xffff_ffff },
            Probe::ResetHw { reset, .. } => ProbeRequest::Register(reset.register()),
            Probe::Params { .. } => ProbeRequest::Register(E1000_EECD),
            Probe::Validate { validate, .. } => ProbeRequest::Register(validate.register()),
            Probe::ReadMac { read, .. } => ProbeRequest::Register(read.register()),
            Probe::Reset { reset, .. } => ProbeRequest::Register(reset.register()),
            Probe::Vlan { .. } => ProbeRequest::Register(E1000_RCTL),
            Probe::AddNapi { .. } => ProbeRequest::AddNapi { weight: 64 },
            Probe::KeepData { .. } => ProbeRequest::KeepData,
            Probe::Register { .. } => ProbeRequest::RegisterNetdev,
        }
    }

    /// Goes on with an answer.
    pub fn step(self, reply: ProbeReply, re: &mut Resource) -> (step: Step<
        Probe,
        Result<[u8; 6], i32>,
    >)
        requires
            self.wf(),
        ensures
            final(re)@ == old(re)@ + self.next(reply).0,
            step == self.next(reply).1,
            step matches Step::Wait(m) ==> m.wf(),
    {
        match reply {
            ProbeReply::Outcome(outcome) => self.step_outcome(outcome, re),
            ProbeReply::Resources(resources) => {
                assert(re@ =~= old(re)@ + self.next(reply).0);
                match self {
                    Probe::Resources => {
                        if resources.len() == 0 {
                            return Step::Fault(Fault::NoRegions);
                        }
                        Step::Wait(
                            Probe::MapResource {
                                length: E1000::bar0_length(&resources),
                                io_base: E1000::io_base(&resources),
                            },
                        )
                    },
                    _ => Step::Wait(self),
                }
            },
            ProbeReply::Register(value) => self.step_register(value, re),
        }
    }

    /// Goes on with the outcome of a service of the kernel.
    fn step_outcome(self, outcome: Result<(), i32>, re: &mut Resource) -> (step: Step<
        Probe,
        Result<[u8; 6], i32>,
    >)
        requires
            self.wf(),
        ensures
            final(re)@ == old(re)@ + self.next(ProbeReply::Outcome(outcome)).0,
            step == self.next(ProbeReply::Outcome(outcome)).1,
            step matches Step::Wait(m) ==> m.wf(),
    {
        let ghost start = re@;
        let ghost next = self.next(ProbeReply::Outcome(outcome));
        assert(start =~= start + seq![]);
        let awaited = match self {
            Probe::EnableDevice => true,
            Probe::RequestRegions => true,
            Probe::MapResource { .. } => true,
            Probe::CreateNetdev { .. } => true,
            Probe::SetDmaMask { .. } => true,
            Probe::SetCoherentMask { .. } => true,
            Probe::AddNapi { .. } => true,
            Probe::KeepData { .. } => true,
            Probe::Register { .. } => true,
            _ => false,
        };
        if !awaited {
            return Step::Wait(self);
        }
        match outcome {
            Ok(()) => {},
            Err(error) => {
                return Step::Done(Err(error));
            },
        }
        match self {
            Probe::EnableDevice => Step::Wait(Probe::RequestRegions),
            Probe::RequestRegions => {
                re.push(Action::SetMaster);
                Step::Wait(Probe::Resources)
            },
            Probe::MapResource { io_base, .. } => match io_base {
                Some(io_base) => Step::Wait(Probe::CreateNetdev { io_base }),
                None => Step::Fault(Fault::NoPorts),
            },
            Probe::CreateNetdev { io_base } => Step::Wait(Probe::SetDmaMask { io_base }),
            Probe::SetDmaMask { io_base } => Step::Wait(Probe::SetCoherentMask { io_base }),
            Probe::SetCoherentMask { io_base } => {
                E1000::sw_init(re);
                let reset = E1000::reset_hw(re, io_base);
                assert(re@ =~= start + next.0);
                Step::Wait(Probe::ResetHw { io_base, reset })
            },
            Probe::AddNapi { mac_addr } => Step::Wait(Probe::KeepData { mac_addr }),
            Probe::KeepData { mac_addr } => Step::Wait(Probe::Register { mac_addr }),
            Probe::Register { mac_addr } => {
                re.push(Action::CarrierOff);
                Step::Done(Ok(mac_addr))
            },
            probe => Step::Wait(probe),
        }
    }

    /// Goes on with what a register held.
    fn step_register(self, value: u32, re: &mut Resource) -> (step: Step<
        Probe,
        Result<[u8; 6], i32>,
    >)
        requires
            self.wf(),
        ensures
            final(re)@ == old(re)@ + self.next(ProbeReply::Register(value)).0,
            step == self.next(ProbeReply::Register(value)).1,
            step matches Step::Wait(m) ==> m.wf(),
    {
        let ghost start = re@;
        let ghost next = self.next(ProbeReply::Register(value));
        assert(start =~= start + seq![]);
        match self {
            Probe::ResetHw { io_base, reset } => match reset.step(value, re) {
                Step::Wait(reset) => Step::Wait(Probe::ResetHw { io_base, reset }),
                Step::Done(_) => Step::Wait(Probe::Params { io_base }),
                Step::Fault(fault) => Step::Fault(fault),
            },
            Probe::Params { io_base } => {
                let eeprom = E1000::init_eeprom_params(value);
                let validate = E1000::validate_eeprom_checksum(&eeprom);
                Step::Wait(Probe::Validate { io_base, validate })
            },
            Probe::Validate { io_base, validate } => {
                let eeprom = validate.eeprom;
                match validate.step(value, re) {
                    Step::Wait(validate) => Step::Wait(Probe::Validate { io_base, validate }),
                    Step::Done(_) => Step::Wait(
                        Probe::ReadMac { io_base, read: E1000::read_mac_addr(&eeprom) },
                    ),
                    Step::Fault(fault) => Step::Fault(fault),
                }
            },
            Probe::ReadMac { io_base, read } => match read.step(value, re) {
                Step::Wait(read) => Step::Wait(Probe::ReadMac { io_base, read }),
                Step::Done(mac_addr) => {
                    re.push(Action::SetHwAddr { mac_addr });
                    re.push(
                        Action::SetMtuRange {
                            min: ETH_MIN_MTU,
                            max: MAX_JUMBO_FRAME_SIZE - (ETH_HLEN + ETH_FCS_LEN),
                        },
                    );
                    re.push(Action::AllowNoFcs);
                    re.push(Action::InstallOps);
                    let reset = E1000::reset(re, io_base, &mac_addr);
                    assert(re@ =~= start + next.0);
                    Step::Wait(Probe::Reset { mac_addr, reset })
                },
                Step::Fault(fault) => Step::Fault(fault),
            },
            Probe::Reset { mac_addr, reset } => match reset.step(value, re) {
                Step::Wait(reset) => Step::Wait(Probe::Reset { mac_addr, reset }),
                Step::Done(_) => Step::Wait(Probe::Vlan { mac_addr }),
                Step::Fault(fault) => Step::Fault(fault),
            },
            Probe::Vlan { mac_addr } => {
                // VLAN filter off.
                let rctl: u32 = value & !E1000_RCTL_VFE;
                re.ew32(E1000_RCTL, rctl);
                Step::Wait(Probe::AddNapi { mac_addr })
            },
            probe => Step::Wait(probe),
        }
    }
}

/// The region with the number `k` is there and consists of I/O ports, as bit 8 of its flags tells,
/// whatever the other bits are.
pub open spec fn ports_at(resources: Seq<PciResource>, k: int) -> bool {
    resources[k].len > 0 && resources[k].flags & 0x100 != 0
}

/// The I/O ports found are those of the first region from `i` on that consists of ports, and none
/// are found just when there is no such region.
pub proof fn law_first_ports(resources: Seq<PciResource>, i: int)
    requires
        0 <= i,
    ensures
        match first_ports(resources, i) {
            Some(base) => exists|k: int|
                i <= k < resources.len() && #[trigger] ports_at(resources, k) && base
                    == resources[k].start && forall|j: int|
                    i <= j < k ==> !#[trigger] ports_at(resources, j),
            None => forall|j: int| i <= j < resources.len() ==> !#[trigger] ports_at(resources, j),
        },
    decreases resources.len() - i,
{
    if i < resources.len() {
        if resources[i].is_ports() {
            assert(ports_at(resources, i));
        } else {
            assert(!ports_at(resources, i));
            law_first_ports(resources, i + 1);
            if let Some(base) = first_ports(resources, i + 1) {
                let k = choose|k: int|
                    i + 1 <= k < resources.len() && #[trigger] ports_at(resources, k) && base
                        == resources[k].start && forall|j: int|
                        i + 1 <= j < k ==> !#[trigger] ports_at(resources, j);
                assert(ports_at(resources, k));
            }
        }
    }
}

/// A service of the kernel that fails ends the taking over with the kernel's error, and with
/// nothing more done.
pub proof fn law_service_fails(probe: Probe, error: i32)
    requires
        !(probe.asks() is Resources),
        !(probe.asks() is Register),
    ensures
        probe.next(ProbeReply::Outcome(Err(error))) == (
            Seq::<Action>::empty(),
            Step::<Probe, Result<[u8; 6], i32>>::Done(Err(error)),
        ),
{
}

/// What the registers held, as answers.
pub open spec fn registers(values: Seq<u32>) -> Seq<ProbeReply> {
    values.map_values(|value: u32| ProbeReply::Register(value))
}

/// Services of the kernel that succeed, as answers.
pub open spec fn successes(n: nat) -> Seq<ProbeReply> {
    Seq::new(n, |i: int| ProbeReply::Outcome(Ok(())))
}

/// What the kernel and the device answer when every service succeeds: the device has the regions
/// `resources`, the control registers hold `first`, then the EEPROM control register `eecd` with
/// `chip` at its wires, and after that the control registers hold `then`.
pub open spec fn probe_answers(
    resources: Vec<PciResource>,
    first: [u32; 2],
    eecd: u32,
    chip: Chip,
    then: [u32; 4],
) -> Seq<ProbeReply> {
    successes(2).push(ProbeReply::Resources(resources)) + successes(4) + registers(
        seq![first[0], first[1], eecd],
    ) + registers(heard(validate_eeprom_checksum(chip.eeprom), chip, 64 * word_questions()))
        + registers(heard(read_mac_addr(chip.eeprom), at_rest(chip), 3 * word_questions()))
        + registers(seq![then[0], then[1], then[2]]) + (registers(seq![then[3]]) + successes(3))
}

/// A conversation about registers, as part of the taking over.
pub open spec fn register_record(record: Seq<Event<u32, u32>>) -> Seq<
    Event<ProbeRequest, ProbeReply>,
> {
    retold(
        record,
        |reg: u32| ProbeRequest::Register(reg),
        |value: u32| ProbeReply::Register(value),
    )
}

/// The record of a service of the kernel that succeeds, and of what follows.
pub open spec fn served(request: ProbeRequest, actions: Seq<Action>) -> Seq<
    Event<ProbeRequest, ProbeReply>,
> {
    told(request, ProbeReply::Outcome(Ok(())), actions)
}

/// The record of a register that was read, and of what follows.
pub open spec fn register_read(reg: u32, value: u32, actions: Seq<Action>) -> Seq<
    Event<ProbeRequest, ProbeReply>,
> {
    told(ProbeRequest::Register(reg), ProbeReply::Register(value), actions)
}

/// The record of enabling the device and finding its regions.
pub open spec fn enabled_record(resources: Vec<PciResource>) -> Seq<
    Event<ProbeRequest, ProbeReply>,
> {
    served(ProbeRequest::EnableDevice, seq![]) + served(
        ProbeRequest::RequestRegions,
        seq![Action::SetMaster],
    ) + told(ProbeRequest::Resources, ProbeReply::Resources(resources), seq![])
}

/// The record of preparing the kernel's side.
pub open spec fn prepared_record(length: usize) -> Seq<Event<ProbeRequest, ProbeReply>> {
    served(ProbeRequest::MapResource { length }, seq![]) + served(
        ProbeRequest::CreateNetdev,
        seq![],
    ) + served(ProbeRequest::SetDmaMask { mask: 0xffff_ffff }, seq![]) + served(
        ProbeRequest::SetCoherentMask { mask: 0xffff_ffff },
        irq_disable_actions() + quiesce_actions(),
    )
}

/// The record of resetting the adapter and learning the shape of its EEPROM.
pub open spec fn quiesced_record(io_base: u64, first: [u32; 2], eecd: u32) -> Seq<
    Event<ProbeRequest, ProbeReply>,
> {
    register_read(
        E1000_CTRL,
        first[0],
        io_write(io_base, E1000_CTRL, first[0] | E1000_CTRL_RST).push(Action::Msleep(5)),
    ) + register_read(E1000_MANC, first[1], settle_actions(first[1])) + register_read(
        E1000_EECD,
        eecd,
        seq![],
    )
}

/// The record of the second reset and the first values of the registers.
pub open spec fn reset_record(mac_addr: [u8; 6], io_base: u64, then: [u32; 4]) -> Seq<
    Event<ProbeRequest, ProbeReply>,
> {
    register_read(
        E1000_CTRL,
        then[0],
        io_write(io_base, E1000_CTRL, then[0] | E1000_CTRL_RST).push(Action::Msleep(5)),
    ) + register_read(
        E1000_MANC,
        then[1],
        settle_actions(then[1]) + init_hw_actions(mac_addr),
    ) + register_read(
        E1000_TXDCTL,
        then[2],
        seq![reg_write(E1000_TXDCTL, tx_write_back(then[2]))],
    )
}

/// The record from the VLAN filter on, up to the registration.
pub open spec fn kept_record(rctl: u32) -> Seq<Event<ProbeRequest, ProbeReply>> {
    register_read(E1000_RCTL, rctl, seq![reg_write(E1000_RCTL, rctl & !E1000_RCTL_VFE)]) + served(
        ProbeRequest::AddNapi { weight: 64 },
        seq![],
    ) + served(ProbeRequest::KeepData, seq![])
}

/// The record of the registration, with which the taking over ends.
pub open spec fn registered_record() -> Seq<Event<ProbeRequest, ProbeReply>> {
    served(ProbeRequest::RegisterNetdev, seq![Action::CarrierOff])
}

/// The record of the EEPROM's part: the check of its sum, the reading of the address, and what the
/// address is then used for.
pub open spec fn eeprom_record(chip: Chip, mac_addr: [u8; 6]) -> Seq<
    Event<ProbeRequest, ProbeReply>,
> {
    let validate = validate_eeprom_checksum(chip.eeprom);
    let address = read_mac_addr(chip.eeprom);
    register_record(run(validate, heard(validate, chip, 64 * word_questions())).0) + (
    register_record(run(address, heard(address, at_rest(chip), 3 * word_questions())).0) + did(
        netdev_actions(mac_addr) + reset_actions(),
    ))
}

/// The record of taking a device over when every service succeeds.
pub open spec fn probe_record(
    resources: Vec<PciResource>,
    first: [u32; 2],
    eecd: u32,
    chip: Chip,
    then: [u32; 4],
    mac_addr: [u8; 6],
) -> Seq<Event<ProbeRequest, ProbeReply>> {
    let io_base = first_ports(resources@, 1)->Some_0;
    enabled_record(resources) + prepared_record(resources@[0].len as usize) + quiesced_record(
        io_base,
        first,
        eecd,
    ) + eeprom_record(chip, mac_addr) + reset_record(mac_addr, io_base, then) + kept_record(then[3])
        + registered_record()
}

/// The device is enabled.
proof fn lemma_enabled(resources: Vec<PciResource>)
    requires
        resources@.len() > 0,
    ensures
        run(
            Probe::EnableDevice,
            successes(2).push(ProbeReply::Resources(resources)),
        ) == (
            enabled_record(resources),
            Step::<Probe, Result<[u8; 6], i32>>::Wait(
                Probe::MapResource {
                    length: resources@[0].len as usize,
                    io_base: first_ports(resources@, 1),
                },
            ),
        ),
{
    let ok = ProbeReply::Outcome(Ok(()));
    let s = Probe::EnableDevice;
    lemma_run_one(s, ok);
    lemma_run_push(s, seq![ok], ok);
    lemma_run_push(s, seq![ok].push(ok), ProbeReply::Resources(resources));
    assert(seq![ok].push(ok) =~= successes(2));
}

/// The kernel's side is prepared.
proof fn lemma_prepared(length: usize, io_base: u64)
    ensures
        run(Probe::MapResource { length, io_base: Some(io_base) }, successes(4)) == (
            prepared_record(length),
            Step::<Probe, Result<[u8; 6], i32>>::Wait(
                Probe::ResetHw { io_base, reset: ResetHw::Restart { io_base } },
            ),
        ),
{
    let ok = ProbeReply::Outcome(Ok(()));
    let s = Probe::MapResource { length, io_base: Some(io_base) };
    lemma_run_one(s, ok);
    lemma_run_push(s, seq![ok], ok);
    lemma_run_push(s, seq![ok].push(ok), ok);
    lemma_run_push(s, seq![ok].push(ok).push(ok), ok);
    assert(seq![ok].push(ok).push(ok).push(ok) =~= successes(4));
}

/// The adapter is reset.
proof fn lemma_quiesced(io_base: u64, first: [u32; 2], eecd: u32)
    requires
        io_base + 4 <= u64::MAX,
    ensures
        run(
            Probe::ResetHw { io_base, reset: ResetHw::Restart { io_base } },
            registers(seq![first[0], first[1], eecd]),
        ) == (
            quiesced_record(io_base, first, eecd),
            Step::<Probe, Result<[u8; 6], i32>>::Wait(
                Probe::Validate {
                    io_base,
                    validate: validate_eeprom_checksum(eeprom_params(eecd)),
                },
            ),
        ),
{
    let s = Probe::ResetHw { io_base, reset: ResetHw::Restart { io_base } };
    let (a, b, c) = (
        ProbeReply::Register(first[0]),
        ProbeReply::Register(first[1]),
        ProbeReply::Register(eecd),
    );
    lemma_run_one(s, a);
    lemma_run_push(s, seq![a], b);
    lemma_run_push(s, seq![a].push(b), c);
    assert(seq![a].push(b).push(c) =~= registers(seq![first[0], first[1], eecd]));
}

/// The check of the EEPROM's sum.
proof fn lemma_validated(io_base: u64, chip: Chip)
    requires
        !chip.wires.cs,
        chip.eeprom.wf(),
        chip.eeprom.opcode_bits >= 3,
        chip.eeprom.address_bits >= 6,
        chip.eeprom.word_size >= 64,
    ensures
        ({
            let start = validate_eeprom_checksum(chip.eeprom);
            let replies = heard(start, chip, 64 * word_questions());
            run(Probe::Validate { io_base, validate: start }, registers(replies)) == (
                register_record(run(start, replies).0),
                Step::<Probe, Result<[u8; 6], i32>>::Wait(
                    Probe::ReadMac { io_base, read: read_mac_addr(chip.eeprom) },
                ),
            )
        }),
{
    let start = validate_eeprom_checksum(chip.eeprom);
    let n = 64 * word_questions();
    law_validate_eeprom_checksum(chip);
    lemma_heard(start, chip, n);
    lemma_heard(start, chip, (n - 1) as nat);
    let replies = heard(start, chip, n);
    let last = lemma_run_last(start, replies);
    let f = |validate: ValidateEepromChecksum| Probe::Validate { io_base, validate };
    let q = |reg: u32| ProbeRequest::Register(reg);
    let g = |value: u32| ProbeReply::Register(value);
    lemma_same_eeprom(start, replies.drop_last());
    assert(last.next(replies.last()).0 + seq![] =~= last.next(replies.last()).0);
    lemma_run_to_end(start, f, q, g, replies, last, seq![]);
    assert(registers(replies) =~= replies.map_values(g));
    let record = register_record(run(start, replies).0);
    assert(retold(run(start, replies).0, q, g) + did(seq![]) =~= record);
}

/// The check of the sum keeps to one EEPROM.
proof fn lemma_same_eeprom(validate: ValidateEepromChecksum, replies: Seq<u32>)
    ensures
        run(validate, replies).1 matches Step::Wait(last) ==> last.eeprom == validate.eeprom,
    decreases replies.len(),
{
    if replies.len() > 0 {
        if let Step::Wait(q) = validate.next(replies[0]).1 {
            lemma_same_eeprom(q, replies.drop_first());
        }
    }
}

/// The reading of the address.
proof fn lemma_addressed(io_base: u64, chip: Chip) -> (mac_addr: [u8; 6])
    requires
        !chip.wires.cs,
        chip.eeprom.wf(),
        chip.eeprom.opcode_bits >= 3,
        chip.eeprom.address_bits >= 2,
        chip.eeprom.word_size >= 3,
    ensures
        mac_addr@ == address_in(chip.words),
        ({
            let start = read_mac_addr(chip.eeprom);
            let replies = heard(start, chip, 3 * word_questions());
            run(Probe::ReadMac { io_base, read: start }, registers(replies)) == (
                register_record(run(start, replies).0) + did(
                    netdev_actions(mac_addr) + reset_actions(),
                ),
                Step::<Probe, Result<[u8; 6], i32>>::Wait(
                    Probe::Reset {
                        mac_addr,
                        reset: Reset::Hw { mac_addr, reset: ResetHw::Restart { io_base } },
                    },
                ),
            )
        }),
{
    let start = read_mac_addr(chip.eeprom);
    let n = 3 * word_questions();
    law_read_mac_addr(chip);
    lemma_heard(start, chip, n);
    lemma_heard(start, chip, (n - 1) as nat);
    let replies = heard(start, chip, n);
    let last = lemma_run_last(start, replies);
    let mac_addr = converse(start, chip, n).1->Done_0;
    let f = |read: ReadMacAddr| Probe::ReadMac { io_base, read };
    let q = |reg: u32| ProbeRequest::Register(reg);
    let g = |value: u32| ProbeReply::Register(value);
    let extra = netdev_actions(mac_addr) + reset_actions();
    let actions = last.next(replies.last()).0;
    assert(actions + netdev_actions(mac_addr) + reset_actions() =~= actions + extra);
    lemma_run_to_end(start, f, q, g, replies, last, extra);
    assert(registers(replies) =~= replies.map_values(g));
    assert(retold(run(start, replies).0, q, g) =~= register_record(run(start, replies).0));
    mac_addr
}

/// The second reset.
proof fn lemma_reset_again(mac_addr: [u8; 6], io_base: u64, then: [u32; 4])
    requires
        io_base + 4 <= u64::MAX,
    ensures
        run(
            Probe::Reset {
                mac_addr,
                reset: Reset::Hw { mac_addr, reset: ResetHw::Restart { io_base } },
            },
            registers(seq![then[0], then[1], then[2]]),
        ) == (
            reset_record(mac_addr, io_base, then),
            Step::<Probe, Result<[u8; 6], i32>>::Wait(Probe::Vlan { mac_addr }),
        ),
{
    let s = Probe::Reset {
        mac_addr,
        reset: Reset::Hw { mac_addr, reset: ResetHw::Restart { io_base } },
    };
    let (a, b, c) = (
        ProbeReply::Register(then[0]),
        ProbeReply::Register(then[1]),
        ProbeReply::Register(then[2]),
    );
    lemma_run_one(s, a);
    lemma_run_push(s, seq![a], b);
    lemma_run_push(s, seq![a].push(b), c);
    assert(seq![a].push(b).push(c) =~= registers(seq![then[0], then[1], then[2]]));
}

/// From the VLAN filter on.
proof fn lemma_registered(mac_addr: [u8; 6], rctl: u32)
    ensures
        run(Probe::Vlan { mac_addr }, registers(seq![rctl]) + successes(3)) == (
            kept_record(rctl) + registered_record(),
            Step::<Probe, Result<[u8; 6], i32>>::Done(Ok(mac_addr)),
        ),
{
    let ok = ProbeReply::Outcome(Ok(()));
    let s = Probe::Vlan { mac_addr };
    let r = ProbeReply::Register(rctl);
    lemma_run_one(s, r);
    lemma_run_push(s, seq![r], ok);
    lemma_run_push(s, seq![r].push(ok), ok);
    lemma_run_push(s, seq![r].push(ok).push(ok), ok);
    assert(seq![r].push(ok).push(ok).push(ok) =~= registers(seq![rctl]) + successes(3));
}

/// The registration of the network device is asked for.
pub open spec fn asks_registration(event: Event<ProbeRequest, ProbeReply>) -> bool {
    event matches Event::Heard(request, reply) && request is RegisterNetdev
}

/// The registration is not asked for in the course of `record`.
pub open spec fn unregistered(record: Seq<Event<ProbeRequest, ProbeReply>>) -> bool {
    forall|k: int| 0 <= k < record.len() ==> !asks_registration(#[trigger] record[k])
}

proof fn lemma_unregistered_append(
    a: Seq<Event<ProbeRequest, ProbeReply>>,
    b: Seq<Event<ProbeRequest, ProbeReply>>,
)
    requires
        unregistered(a),
        unregistered(b),
    ensures
        unregistered(a + b),
{
    assert forall|k: int| 0 <= k < (a + b).len() implies !asks_registration(
        #[trigger] (a + b)[k],
    ) by {
        if k < a.len() {
            assert((a + b)[k] == a[k]);
        } else {
            assert((a + b)[k] == b[k - a.len()]);
        }
    }
}

/// The registration is the last thing asked for, after the driver's data was kept.
pub proof fn law_registered_last(
    resources: Vec<PciResource>,
    first: [u32; 2],
    eecd: u32,
    chip: Chip,
    then: [u32; 4],
    mac_addr: [u8; 6],
)
    ensures
        ({
            let record = probe_record(resources, first, eecd, chip, then, mac_addr);
            let n = record.len();
            &&& n >= 3
            &&& forall|k: int|
                0 <= k < n ==> (asks_registration(#[trigger] record[k]) <==> k == n - 2)
            &&& record[n - 3] == Event::<ProbeRequest, ProbeReply>::Heard(
                ProbeRequest::KeepData,
                ProbeReply::Outcome(Ok(())),
            )
            &&& record[n - 1] == Event::<ProbeRequest, ProbeReply>::Did(Action::CarrierOff)
        }),
{
    let io_base = first_ports(resources@, 1)->Some_0;
    let a = enabled_record(resources);
    let b = prepared_record(resources@[0].len as usize);
    let c = quiesced_record(io_base, first, eecd);
    let d = eeprom_record(chip, mac_addr);
    let e = reset_record(mac_addr, io_base, then);
    let f = kept_record(then[3]);
    assert(unregistered(a));
    assert(unregistered(b));
    assert(unregistered(c));
    assert(unregistered(d));
    assert(unregistered(e));
    assert(unregistered(f));
    lemma_unregistered_append(a, b);
    lemma_unregistered_append(a + b, c);
    lemma_unregistered_append(a + b + c, d);
    lemma_unregistered_append(a + b + c + d, e);
    lemma_unregistered_append(a + b + c + d + e, f);
    let lead = a + b + c + d + e + f;
    let record = probe_record(resources, first, eecd, chip, then, mac_addr);
    assert(record == lead + registered_record());
    assert(registered_record() =~= seq![
        Event::Heard(ProbeRequest::RegisterNetdev, ProbeReply::Outcome(Ok(()))),
        Event::Did(Action::CarrierOff),
    ]);
    assert(f.last() == Event::<ProbeRequest, ProbeReply>::Heard(
        ProbeRequest::KeepData,
        ProbeReply::Outcome(Ok(())),
    ));
    assert(lead.last() == f.last());
    assert forall|k: int| 0 <= k < record.len() implies (asks_registration(#[trigger] record[k])
        <==> k == record.len() - 2) by {
        if k < lead.len() {
            assert(record[k] == lead[k]);
        }
    }
}

/// The address read is given to the network device and, at the end, stands in the adapter's first
/// receive address entry.
pub proof fn law_address_set(
    resources: Vec<PciResource>,
    first: [u32; 2],
    eecd: u32,
    chip: Chip,
    then: [u32; 4],
    mac_addr: [u8; 6],
)
    ensures
        ({
            let record = probe_record(resources, first, eecd, chip, then, mac_addr);
            &&& record.contains(
                Event::<ProbeRequest, ProbeReply>::Did(Action::SetHwAddr { mac_addr }),
            )
            &&& last_written(record, E1000_RA) == Some(rar_low(mac_addr))
            &&& last_written(record, (E1000_RA + 4) as u32) == Some(rar_high(mac_addr))
        }),
{
    let io_base = first_ports(resources@, 1)->Some_0;
    let record = probe_record(resources, first, eecd, chip, then, mac_addr);
    let lead = enabled_record(resources) + prepared_record(resources@[0].len as usize)
        + quiesced_record(io_base, first, eecd);
    let words = eeprom_record(chip, mac_addr);
    let k = words.len() - (netdev_actions(mac_addr) + reset_actions()).len();
    assert(words[k] == Event::<ProbeRequest, ProbeReply>::Did(Action::SetHwAddr { mac_addr }));
    assert(record[lead.len() + k] == words[k]);
    lemma_address_written(lead + words, mac_addr, io_base, then, E1000_RA);
    lemma_address_written(lead + words, mac_addr, io_base, then, (E1000_RA + 4) as u32);
}

/// The address is written with the first values of the registers, and not after that.
proof fn lemma_address_written(
    lead: Seq<Event<ProbeRequest, ProbeReply>>,
    mac_addr: [u8; 6],
    io_base: u64,
    then: [u32; 4],
    reg: u32,
)
    requires
        reg == E1000_RA || reg == E1000_RA + 4,
    ensures
        last_written(
            lead + reset_record(mac_addr, io_base, then) + kept_record(then[3])
                + registered_record(),
            reg,
        ) == Some(
            if reg == E1000_RA {
                rar_low(mac_addr)
            } else {
                rar_high(mac_addr)
            },
        ),
{
    let restart = register_read(
        E1000_CTRL,
        then[0],
        io_write(io_base, E1000_CTRL, then[0] | E1000_CTRL_RST).push(Action::Msleep(5)),
    );
    let settle = register_read(E1000_MANC, then[1], settle_actions(then[1]));
    let init = did::<ProbeRequest, ProbeReply>(init_hw_actions(mac_addr));
    let values = register_read(
        E1000_MANC,
        then[1],
        settle_actions(then[1]) + init_hw_actions(mac_addr),
    );
    let policy = register_read(
        E1000_TXDCTL,
        then[2],
        seq![reg_write(E1000_TXDCTL, tx_write_back(then[2]))],
    );
    let again = reset_record(mac_addr, io_base, then);
    let kept = kept_record(then[3]);
    assert(values =~= settle + init);
    law_own_address::<ProbeRequest, ProbeReply>(mac_addr);
    lemma_last_written(settle, init, reg);
    lemma_not_written(policy, reg);
    lemma_not_written(kept, reg);
    lemma_not_written(registered_record(), reg);
    lemma_last_written(restart, values, reg);
    lemma_last_written(restart + values, policy, reg);
    lemma_last_written(lead, again, reg);
    lemma_last_written(lead + again, kept, reg);
    lemma_last_written(lead + again + kept, registered_record(), reg);
}

/// The taking over, part by part.
proof fn lemma_taken_over(
    resources: Vec<PciResource>,
    first: [u32; 2],
    eecd: u32,
    chip: Chip,
    then: [u32; 4],
) -> (mac_addr: [u8; 6])
    requires
        resources@.len() > 0,
        first_ports(resources@, 1) matches Some(base) && base + 4 <= u64::MAX,
        chip.eeprom == eeprom_params(eecd),
        !chip.wires.cs,
    ensures
        mac_addr@ == address_in(chip.words),
        run(Probe::EnableDevice, probe_answers(resources, first, eecd, chip, then)) == (
            probe_record(resources, first, eecd, chip, then, mac_addr),
            Step::<Probe, Result<[u8; 6], i32>>::Done(Ok(mac_addr)),
        ),
{
    let io_base = first_ports(resources@, 1)->Some_0;
    let length = resources@[0].len as usize;
    let validate = validate_eeprom_checksum(chip.eeprom);
    let address = read_mac_addr(chip.eeprom);
    lemma_enabled(resources);
    lemma_prepared(length, io_base);
    lemma_quiesced(io_base, first, eecd);
    lemma_validated(io_base, chip);
    let mac_addr = lemma_addressed(io_base, at_rest(chip));
    lemma_reset_again(mac_addr, io_base, then);
    lemma_registered(mac_addr, then[3]);
    // States, answers and records of the parts.
    let s = Probe::EnableDevice;
    let s2 = Probe::MapResource { length, io_base: Some(io_base) };
    let s3 = Probe::ResetHw { io_base, reset: ResetHw::Restart { io_base } };
    let s4 = Probe::Validate { io_base, validate };
    let s5 = Probe::ReadMac { io_base, read: address };
    let s6 = Probe::Reset {
        mac_addr,
        reset: Reset::Hw { mac_addr, reset: ResetHw::Restart { io_base } },
    };
    let s7 = Probe::Vlan { mac_addr };
    let a = successes(2).push(ProbeReply::Resources(resources));
    let b = successes(4);
    let c = registers(seq![first[0], first[1], eecd]);
    let d = registers(heard(validate, chip, 64 * word_questions()));
    let e = registers(heard(address, at_rest(chip), 3 * word_questions()));
    let f = registers(seq![then[0], then[1], then[2]]);
    let g = registers(seq![then[3]]) + successes(3);
    let ra = enabled_record(resources);
    let rb = prepared_record(length);
    let rc = quiesced_record(io_base, first, eecd);
    let rd = run(s4, d).0;
    let re = run(s5, e).0;
    let rf = reset_record(mac_addr, io_base, then);
    lemma_run_join(s, a, ra, s2, b);
    lemma_run_join(s, a + b, ra + rb, s3, c);
    lemma_run_join(s, a + b + c, ra + rb + rc, s4, d);
    lemma_run_join(s, a + b + c + d, ra + rb + rc + rd, s5, e);
    lemma_run_join(s, a + b + c + d + e, ra + rb + rc + rd + re, s6, f);
    lemma_run_join(s, a + b + c + d + e + f, ra + rb + rc + rd + re + rf, s7, g);
    lemma_grouped(ra + rb + rc, rd, re);
    lemma_grouped(
        ra + rb + rc + (rd + re) + rf,
        kept_record(then[3]),
        registered_record(),
    );
    mac_addr
}

/// Sequences one after the other, however they are grouped.
proof fn lemma_grouped<T>(a: Seq<T>, b: Seq<T>, c: Seq<T>)
    ensures
        a + (b + c) == a + b + c,
{
    assert(a + (b + c) =~= a + b + c);
}

/// Where every service of the kernel succeeds and the device has ports, the taking over succeeds,
/// whatever the registers hold, and yields the address that the EEPROM holds. The EEPROM has 64 or
/// 256 words, and the device reports in one bit of its control register which. The network device
/// has that address, the adapter receives frames for it, and the registration is the last thing
/// asked for, after the driver's data was kept.
pub proof fn law_probe(
    resources: Vec<PciResource>,
    first: [u32; 2],
    eecd: u32,
    chip: Chip,
    then: [u32; 4],
)
    requires
        resources@.len() > 0,
        first_ports(resources@, 1) matches Some(base) && base + 4 <= u64::MAX,
        chip.eeprom == (EepromInfo {
            word_size: 64,
            opcode_bits: 3,
            address_bits: 6,
            delay_usec: 50,
        }) || chip.eeprom == (EepromInfo {
            word_size: 256,
            opcode_bits: 3,
            address_bits: 8,
            delay_usec: 50,
        }),
        eecd & 0x200 != 0 <==> chip.eeprom.word_size == 256,
        !chip.wires.cs,
    ensures
        ({
            let (record, step) = run(
                Probe::EnableDevice,
                probe_answers(resources, first, eecd, chip, then),
            );
            let n = record.len();
            &&& step matches Step::Done(Ok(mac_addr))
            &&& mac_addr@ == address_in(chip.words)
            &&& mac_addr[0] + 0x100 * mac_addr[1] == chip.words[0]
            &&& mac_addr[2] + 0x100 * mac_addr[3] == chip.words[1]
            &&& mac_addr[4] + 0x100 * mac_addr[5] == chip.words[2]
            &&& record == probe_record(resources, first, eecd, chip, then, mac_addr)
            &&& record.contains(
                Event::<ProbeRequest, ProbeReply>::Did(Action::SetHwAddr { mac_addr }),
            )
            &&& last_written(record, E1000_RA) == Some(rar_low(mac_addr))
            &&& last_written(record, (E1000_RA + 4) as u32) == Some(rar_high(mac_addr))
            &&& n >= 3
            &&& forall|k: int|
                0 <= k < n ==> (asks_registration(#[trigger] record[k]) <==> k == n - 2)
            &&& record[n - 3] == Event::<ProbeRequest, ProbeReply>::Heard(
                ProbeRequest::KeepData,
                ProbeReply::Outcome(Ok(())),
            )
        }),
{
    law_eeprom_shape(eecd);
    let mac_addr = lemma_taken_over(resources, first, eecd, chip, then);
    assert(forall|i: int|
        0 <= i < 6 ==> #[trigger] mac_addr@[i] == address_in(chip.words)[i]);
    law_address_set(resources, first, eecd, chip, then, mac_addr);
    law_registered_last(resources, first, eecd, chip, then, mac_addr);
}

/// A device without regions is a fault; otherwise the whole first region is mapped next, and the
/// ports are looked for among the others.
pub proof fn law_regions_found(resources: Vec<PciResource>)
    ensures
        ({
            let (actions, step) = Probe::Resources.next(ProbeReply::Resources(resources));
            &&& actions == Seq::<Action>::empty()
            &&& resources@.len() == 0 ==> step == Step::<Probe, Result<[u8; 6], i32>>::Fault(
                Fault::NoRegions,
            )
            &&& resources@.len() > 0 ==> {
                &&& step matches Step::Wait(probe)
                &&& probe.asks() == (ProbeRequest::MapResource {
                    length: resources@[0].len as usize,
                })
                &&& probe == (Probe::MapResource {
                    length: resources@[0].len as usize,
                    io_base: first_ports(resources@, 1),
                })
            }
        }),
{
}

/// A device without I/O ports is a fault once its first region is mapped, and only then.
pub proof fn law_ports_needed(length: usize, io_base: Option<u64>)
    ensures
        ({
            let (actions, step) = (Probe::MapResource { length, io_base }).next(
                ProbeReply::Outcome(Ok(())),
            );
            &&& actions == Seq::<Action>::empty()
            &&& io_base is None ==> step == Step::<Probe, Result<[u8; 6], i32>>::Fault(
                Fault::NoPorts,
            )
            &&& io_base matches Some(io_base) ==> step == Step::<Probe, Result<[u8; 6], i32>>::Wait(
                Probe::CreateNetdev { io_base },
            )
        }),
{
}

/// The device is limited to addresses of 32 bits, for what it reaches and for what it shares.
pub proof fn law_address_bound(io_base: u64)
    ensures
        (Probe::SetDmaMask { io_base }).asks() matches ProbeRequest::SetDmaMask { mask } && mask + 1
            == 0x1_0000_0000,
        (Probe::SetCoherentMask { io_base }).asks() matches ProbeRequest::SetCoherentMask { mask }
            && mask + 1 == 0x1_0000_0000,
{
}

/// The VLAN filter is switched off, and nothing else in the receive control register changes.
pub proof fn law_vlan_filter_off<Q, R>(mac_addr: [u8; 6], rctl: u32, reg: u32)
    ensures
        ({
            let (actions, step) = (Probe::Vlan { mac_addr }).next(ProbeReply::Register(rctl));
            let record = did::<Q, R>(actions);
            &&& last_written(record, 0x100) matches Some(value)
            &&& value & 0x4_0000 == 0
            &&& value | 0x4_0000 == rctl | 0x4_0000
            &&& reg != 0x100 ==> last_written(record, reg) is None
            &&& actions.len() == 1
            &&& step == Step::<Probe, Result<[u8; 6], i32>>::Wait(Probe::AddNapi { mac_addr })
        }),
{
    lemma_set_clear(rctl, 0x4_0000, 0);
    law_reg_write::<Q, R>(E1000_RCTL, rctl & !E1000_RCTL_VFE, 0x100);
    law_reg_write::<Q, R>(E1000_RCTL, rctl & !E1000_RCTL_VFE, reg);
}

/// The network device gets the very address read, transfer units from 68 bytes up to a jumbo frame
/// of 16128 bytes less its header and checksum, leave to send without checksums, and the driver's
/// operations.
pub proof fn law_netdev_prepared(mac_addr: [u8; 6])
    ensures
        netdev_actions(mac_addr) == seq![
            Action::SetHwAddr { mac_addr },
            Action::SetMtuRange { min: 68, max: (16128 - 14 - 4) as u32 },
            Action::AllowNoFcs,
            Action::InstallOps,
        ],
{
}

/// The fault, if any, that the part of the taking over at hand meets when its register held
/// `value`.
pub open spec fn part_fault(probe: Probe, value: u32) -> Option<Fault> {
    match probe {
        Probe::ResetHw { reset, .. } => match reset.next(value).1 {
            Step::Fault(fault) => Some(fault),
            _ => None,
        },
        Probe::Validate { validate, .. } => match validate.next(value).1 {
            Step::Fault(fault) => Some(fault),
            _ => None,
        },
        Probe::ReadMac { read, .. } => match read.next(value).1 {
            Step::Fault(fault) => Some(fault),
            _ => None,
        },
        Probe::Reset { reset, .. } => match reset.next(value).1 {
            Step::Fault(fault) => Some(fault),
            _ => None,
        },
        _ => None,
    }
}

/// While registers are read, the taking over meets a fault just when its part at hand does, and it
/// is the same fault.
pub proof fn law_part_fault(probe: Probe, value: u32)
    ensures
        probe.next(ProbeReply::Register(value)).1 matches Step::Fault(fault) ==> part_fault(
            probe,
            value,
        ) == Some(fault),
        part_fault(probe, value) matches Some(fault) ==> probe.next(ProbeReply::Register(value)).1
            == Step::<Probe, Result<[u8; 6], i32>>::Fault(fault),
{
}

/// The registers that the taking over asks for on its own account are those of the EEPROM's wires
/// and of receive control, and polls are to take 64 packets at most. An answer of another kind than
/// the one awaited changes nothing.
pub proof fn law_probe_asks(io_base: u64, mac_addr: [u8; 6], probe: Probe, reply: ProbeReply)
    ensures
        (Probe::Params { io_base }).asks() == ProbeRequest::Register(0x10),
        (Probe::Vlan { mac_addr }).asks() == ProbeRequest::Register(0x100),
        (Probe::AddNapi { mac_addr }).asks() == (ProbeRequest::AddNapi { weight: 64 }),
        match probe.asks() {
            ProbeRequest::Resources => !(reply is Resources),
            ProbeRequest::Register(_) => !(reply is Register),
            _ => !(reply is Outcome),
        } ==> probe.next(reply) == (
            Seq::<Action>::empty(),
            Step::<Probe, Result<[u8; 6], i32>>::Wait(probe),
        ),
{
}

} // verus!
