use e1000::control::IrqReturn;
use e1000::defs::{E1000_IMC, E1000_IMS, E1000_RCTL, E1000_STATUS, E1000_TCTL};
use e1000::filter::NetDevice;
use e1000::protocol::Action;
use e1000::resource::Resource;
use e1000::ring::Ring;
use e1000::E1000;

fn write(offset: usize, value: u32) -> Action {
    Action::Write { offset, value }
}

const FLUSH: Action = Action::Read { offset: E1000_STATUS as usize };

#[test]
fn the_transmit_unit_is_told_of_its_ring() {
    let mut re = Resource::new();
    E1000::configure_tx(&mut re, &Ring::new(0x0000_0012_3456_7000));
    assert_eq!(
        re.take(),
        vec![
            write(0x3808, 2048),
            write(0x3804, 0x12),
            write(0x3800, 0x3456_7000),
            write(0x3818, 0),
            write(0x3810, 0),
            write(0x0410, 0x0060_2008),
            write(0x3820, 0),
            write(0x382C, 0),
        ]
    );
}

#[test]
fn the_transmit_unit_pads_and_retransmits() {
    let mut re = Resource::new();
    E1000::configure_tctl(&mut re, 0);
    assert_eq!(re.take(), vec![write(E1000_TCTL as usize, 0x0100_00F8)]);
    E1000::configure_tctl(&mut re, 0x003F_FFFA);
    assert_eq!(re.take(), vec![write(E1000_TCTL as usize, 0x013F_F0FA)]);
}

#[test]
fn the_receive_unit_takes_ordinary_frames() {
    let mut re = Resource::new();
    let netdev = NetDevice { flags: 0, uc_count: 0, mtu: 1500 };
    E1000::setup_rctl(&mut re, &netdev, 0);
    assert_eq!(re.take(), vec![write(E1000_RCTL as usize, 0x8000)]);
    E1000::setup_rctl(&mut re, &netdev, 0xffff_ffff);
    assert_eq!(re.take(), vec![write(E1000_RCTL as usize, 0xFDFC_CFDB)]);
}

#[test]
fn the_receive_unit_is_stopped_told_of_its_ring_and_started() {
    let mut re = Resource::new();
    E1000::configure_rx(&mut re, &Ring::new(0xFFFF_FFFF_0000_1000), 0x8002);
    assert_eq!(
        re.take(),
        vec![
            write(E1000_RCTL as usize, 0x8000),
            write(0x2820, 0),
            write(0x282C, 8),
            write(0x00C4, 1_302_083),
            write(0x2808, 2048),
            write(0x2804, 0xFFFF_FFFF),
            write(0x2800, 0x1000),
            write(0x2818, 0),
            write(0x2810, 0),
            write(E1000_RCTL as usize, 0x8002),
        ]
    );
}

#[test]
fn interrupts_are_unmasked_and_masked() {
    let mut re = Resource::new();
    E1000::irq_enable(&mut re);
    assert_eq!(re.take(), vec![write(E1000_IMS as usize, 0x9D), FLUSH]);
    E1000::irq_disable(&mut re);
    let masked = re.take();
    assert_eq!(masked, vec![write(E1000_IMC as usize, 0xffff_ffff), FLUSH]);
    E1000::sw_init(&mut re);
    assert_eq!(re.take(), masked);
}

#[test]
fn an_interrupt_without_a_cause_is_not_the_adapters() {
    let mut re = Resource::new();
    assert_eq!(E1000::handle_irq(&mut re, 0), IrqReturn::NotMine);
    assert_eq!(re.take(), vec![]);
}

#[test]
fn an_interrupt_with_a_cause_starts_polling() {
    let mut re = Resource::new();
    assert_eq!(E1000::handle_irq(&mut re, 0x80), IrqReturn::Handled);
    assert_eq!(re.take(), vec![Action::NapiSchedule]);
}
