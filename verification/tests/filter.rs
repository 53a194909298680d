use e1000::defs::{
    E1000_RA, E1000_RCTL, E1000_RCTL_MPE, E1000_RCTL_UPE, E1000_STATUS, IFF_ALLMULTI, IFF_PROMISC,
};
use e1000::filter::{NetDevice, SetRxMode};
use e1000::protocol::{Action, Fault, Step};
use e1000::resource::Resource;
use e1000::E1000;

const FLUSH: Action = Action::Read { offset: E1000_STATUS as usize };

fn clear(offset: usize) -> Action {
    Action::Write { offset, value: 0 }
}

fn plain() -> NetDevice {
    NetDevice { flags: 0x1003, uc_count: 0, mtu: 1500 }
}

/// What empties all receive address entries but the first.
fn emptied() -> Vec<Action> {
    let mut actions = Vec::new();
    for i in 1..15 {
        actions.extend([clear(0x5400 + 8 * i), FLUSH, clear(0x5404 + 8 * i), FLUSH]);
    }
    actions
}

#[test]
fn the_receive_mode_takes_own_frames_only() {
    let mut re = Resource::new();
    E1000::set_rx_mode(&mut re, &plain(), 0x8002 | E1000_RCTL_MPE | E1000_RCTL_UPE);
    let mut expected = vec![Action::Write { offset: E1000_RCTL as usize, value: 0x8002 }];
    expected.extend(emptied());
    for i in (0..128).rev() {
        expected.push(clear((0x5200 + i) * 4));
    }
    expected.push(FLUSH);
    assert_eq!(re.take(), expected);
}

#[test]
fn all_multicast_frames_can_be_wanted() {
    let mut re = Resource::new();
    let netdev = NetDevice { flags: IFF_ALLMULTI, ..plain() };
    E1000::set_rx_mode(&mut re, &netdev, 0x8002 | E1000_RCTL_UPE);
    assert_eq!(
        re.take()[0],
        Action::Write { offset: E1000_RCTL as usize, value: 0x8002 | E1000_RCTL_MPE }
    );
}

#[test]
fn setting_the_mode_reads_the_receive_control_register_once() {
    let mut re = Resource::new();
    let mode = SetRxMode { netdev: plain() };
    assert_eq!(mode.register(), E1000_RCTL);
    assert_eq!(mode.step(0, &mut re), Step::Done(()));
    let actions = re.take();
    E1000::set_rx_mode(&mut re, &plain(), 0);
    assert_eq!(actions, re.take());
}

#[test]
fn promiscuous_mode_is_a_fault() {
    let mut re = Resource::new();
    let netdev = NetDevice { flags: IFF_PROMISC | IFF_ALLMULTI, uc_count: 1, mtu: 1500 };
    let step = SetRxMode { netdev }.step(0, &mut re);
    assert_eq!(step, Step::Fault(Fault::Promiscuous));
    assert_eq!(re.take(), vec![]);
}

#[test]
fn additional_unicast_addresses_are_a_fault() {
    for uc_count in [1, -1] {
        let mut re = Resource::new();
        let step = SetRxMode { netdev: NetDevice { uc_count, ..plain() } }.step(0, &mut re);
        assert_eq!(step, Step::Fault(Fault::UnicastFilter));
        assert_eq!(re.take(), vec![]);
    }
}

#[test]
fn an_address_takes_two_registers() {
    let mut re = Resource::new();
    let mac_addr = [0x52, 0x54, 0x00, 0x12, 0x34, 0x56];
    E1000::rar_set(&mut re, &mac_addr, 2);
    assert_eq!(
        re.take(),
        vec![
            Action::Write { offset: E1000_RA as usize + 16, value: 0x1200_5452 },
            FLUSH,
            Action::Write { offset: E1000_RA as usize + 20, value: 0x8000_5634 },
            FLUSH,
        ]
    );
}

#[test]
fn the_own_address_is_the_first_and_only() {
    let mut re = Resource::new();
    E1000::init_rx_addrs(&mut re, &[0xff; 6]);
    let mut expected = vec![
        Action::Write { offset: 0x5400, value: 0xffff_ffff },
        FLUSH,
        Action::Write { offset: 0x5404, value: 0x8000_ffff },
        FLUSH,
    ];
    expected.extend(emptied());
    assert_eq!(re.take(), expected);
}

#[test]
fn the_multicast_table_is_cleared_entry_by_entry() {
    let mut re = Resource::new();
    E1000::clear_multicast_table(&mut re);
    let mut expected = Vec::new();
    for i in 0..128 {
        expected.extend([clear(0x5200 + 4 * i), FLUSH]);
    }
    assert_eq!(re.take(), expected);
}
