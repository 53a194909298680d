use e1000::defs::{E1000_CTRL, E1000_MTA, E1000_STATUS, E1000_TDT};
use e1000::protocol::{Action, Fault};
use e1000::resource::Resource;

#[test]
fn actions_come_out_in_order_and_once() {
    let mut re = Resource::new();
    re.ew32(E1000_TDT, 7);
    re.write_flush();
    re.push(Action::Msleep(3));
    assert_eq!(
        re.take(),
        vec![
            Action::Write { offset: 0x3818, value: 7 },
            Action::Read { offset: E1000_STATUS as usize },
            Action::Msleep(3),
        ]
    );
    assert_eq!(re.take(), vec![]);
}

#[test]
fn an_array_entry_is_four_bytes() {
    let mut re = Resource::new();
    re.write_reg_array(E1000_MTA, 3, 9);
    assert_eq!(re.take(), vec![Action::Write { offset: 0x520C, value: 9 }]);
}

#[test]
fn two_bits_of_an_array_index_are_shifted_out() {
    let mut re = Resource::new();
    re.write_reg_array(E1000_MTA, 0x4000_0001, 9);
    assert_eq!(re.take(), vec![Action::Write { offset: 0x5204, value: 9 }]);
}

#[test]
fn ports_take_the_offset_and_then_the_value() {
    let mut re = Resource::new();
    assert_eq!(re.write_reg_io(0xC000, E1000_CTRL, 0x55), Ok(()));
    assert_eq!(
        re.take(),
        vec![
            Action::Outl { value: E1000_CTRL, port: 0xC000 },
            Action::Outl { value: 0x55, port: 0xC004 },
        ]
    );
}

#[test]
fn ports_past_the_last_are_a_fault() {
    let mut re = Resource::new();
    assert_eq!(re.write_reg_io(u64::MAX - 3, E1000_CTRL, 1), Err(Fault::PortRange));
    assert_eq!(re.take(), vec![Action::Outl { value: E1000_CTRL, port: u64::MAX - 3 }]);
    assert_eq!(re.write_reg_io(u64::MAX - 4, E1000_CTRL, 1), Ok(()));
}
