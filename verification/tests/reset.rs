use e1000::defs::{
    E1000_CTRL, E1000_CTRL_RST, E1000_ICR, E1000_IMC, E1000_MANC, E1000_MANC_ARP_EN, E1000_RCTL,
    E1000_STATUS, E1000_TCTL, E1000_TXDCTL,
};
use e1000::protocol::{Action, Fault, Step};
use e1000::reset::{InitHw, Reset, ResetHw};
use e1000::resource::Resource;
use e1000::E1000;

fn write(reg: u32, value: u32) -> Action {
    Action::Write { offset: reg as usize, value }
}

fn quiesce() -> Vec<Action> {
    vec![
        write(E1000_IMC, 0xffff_ffff),
        write(E1000_RCTL, 0),
        write(E1000_TCTL, 8),
        Action::Read { offset: E1000_STATUS as usize },
        Action::Msleep(10),
    ]
}

#[test]
fn a_reset_goes_through_the_ports() {
    let mut re = Resource::new();
    let reset: ResetHw = E1000::reset_hw(&mut re, 0xC000);
    assert_eq!(re.take(), quiesce());
    assert_eq!(reset.register(), E1000_CTRL);
    let step = reset.step(0x41, &mut re);
    assert_eq!(step, Step::Wait(ResetHw::Settle));
    assert_eq!(
        re.take(),
        vec![
            Action::Outl { value: E1000_CTRL, port: 0xC000 },
            Action::Outl { value: 0x41 | E1000_CTRL_RST, port: 0xC004 },
            Action::Msleep(5),
        ]
    );
    assert_eq!(ResetHw::Settle.register(), E1000_MANC);
    assert_eq!(ResetHw::Settle.step(E1000_MANC_ARP_EN | 1, &mut re), Step::Done(()));
    assert_eq!(
        re.take(),
        vec![
            write(E1000_MANC, 1),
            write(E1000_IMC, 0xffff_ffff),
            Action::Read { offset: E1000_ICR as usize },
        ]
    );
}

#[test]
fn a_reset_without_ports_is_a_fault() {
    let mut re = Resource::new();
    let reset = E1000::reset_hw(&mut re, u64::MAX);
    assert_eq!(reset.step(0, &mut re), Step::Fault(Fault::PortRange));
}

#[test]
fn the_registers_get_their_first_values() {
    let mut re = Resource::new();
    let init: InitHw = E1000::init_hw(&mut re, &[1, 2, 3, 4, 5, 6]);
    let actions = re.take();
    assert_eq!(actions.len(), 1 + 4 + 14 * 4 + 128 * 2);
    assert_eq!(actions[0], Action::Write { offset: 0x38, value: 0 });
    assert_eq!(actions[1], Action::Write { offset: 0x5400, value: 0x0403_0201 });
    assert_eq!(actions[3], Action::Write { offset: 0x5404, value: 0x8000_0605 });
    assert_eq!(init.register(), E1000_TXDCTL);
    assert_eq!(init.step(0xffff_ffff, &mut re), Step::Done(()));
    assert_eq!(re.take(), vec![write(E1000_TXDCTL, 0xffc1_ffff)]);
}

#[test]
fn resetting_is_buffer_reset_and_first_values() {
    let mut re = Resource::new();
    let mac_addr = [1, 2, 3, 4, 5, 6];
    let reset: Reset = E1000::reset(&mut re, 0xC000, &mac_addr);
    let mut expected = vec![Action::Write { offset: 0x1000, value: 0x30 }];
    expected.extend(quiesce());
    assert_eq!(re.take(), expected);
    assert_eq!(reset.register(), E1000_CTRL);
    let reset = match reset.step(0, &mut re) {
        Step::Wait(next) => next,
        step => panic!("{:?}", step),
    };
    re.take();
    assert_eq!(reset.register(), E1000_MANC);
    let reset = match reset.step(0, &mut re) {
        Step::Wait(next) => next,
        step => panic!("{:?}", step),
    };
    let actions = re.take();
    E1000::init_hw(&mut re, &mac_addr);
    assert_eq!(actions[3..], re.take()[..]);
    assert_eq!(reset.register(), E1000_TXDCTL);
    assert_eq!(reset.step(0, &mut re), Step::Done(()));
    assert_eq!(re.take(), vec![write(E1000_TXDCTL, 0x0101_0000)]);
}
