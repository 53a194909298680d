use e1000::defs::{
    E1000_CTRL, E1000_ICS, E1000_IMS, E1000_MDIC, E1000_MDIC_READY, E1000_RCTL, E1000_STATUS,
    E1000_TCTL,
};
use e1000::filter::NetDevice;
use e1000::open::{Activate, BringUp, Configure, ConfigurePhase, Open};
use e1000::protocol::{Action, Fault, Reply, Request, Step};
use e1000::receive::RxBuffer;
use e1000::resource::Resource;
use e1000::ring::{Ring, Skb};
use e1000::E1000;

fn netdev() -> NetDevice {
    NetDevice { flags: 0x1003, uc_count: 0, mtu: 1500 }
}

fn write(reg: u32, value: u32) -> Action {
    Action::Write { offset: reg as usize, value }
}

fn buffer(handle: usize) -> RxBuffer {
    RxBuffer { skb: Skb { handle, len: 0 }, dma: 0x800 * handle as u64 }
}

/// Brings a device up whose registers all read as `value`, and that is ready.
fn bring_up(
    netdev: NetDevice,
    rx_ring: &mut Ring,
    value: u32,
) -> (Vec<Action>, Vec<Request>, Step<Open, ()>) {
    let mut re = Resource::new();
    let tx_ring = Ring::new(0x10_0000);
    let mut open = E1000::open(&netdev);
    let mut requests = Vec::new();
    let mut handle = 0;
    loop {
        let request = open.request();
        requests.push(request);
        let reply = match request {
            Request::Register(reg) if reg == E1000_MDIC => Reply::Register(E1000_MDIC_READY),
            Request::Register(_) => Reply::Register(value),
            Request::RxBuffer { length } => {
                assert_eq!(length, 2048);
                handle += 1;
                Reply::RxBuffer(buffer(handle))
            }
            request => panic!("{:?}", request),
        };
        match open.step(&tx_ring, rx_ring, reply, &mut re) {
            Step::Wait(next) => open = next,
            step => return (re.take(), requests, step),
        }
    }
}

#[test]
fn bringing_up_fills_the_receive_ring() {
    let mut rx_ring = Ring::new(0x20_0000);
    let (actions, requests, step) = bring_up(netdev(), &mut rx_ring, 0);
    assert_eq!(step, Step::Done(()));
    let mut expected = vec![Request::Register(E1000_CTRL); 19];
    expected.push(Request::Register(E1000_MDIC));
    expected.push(Request::Register(E1000_RCTL));
    expected.push(Request::Register(E1000_TCTL));
    expected.push(Request::Register(E1000_RCTL));
    expected.push(Request::Register(E1000_RCTL));
    expected.extend(vec![Request::RxBuffer { length: 2048 }; 127]);
    assert_eq!(requests, expected);
    assert_eq!(E1000::unused_desc(&rx_ring), 0);
    for i in 0..127 {
        assert_eq!(rx_ring.buffer_info[i].skb, Some(Skb { handle: i + 1, len: 0 }));
    }
    assert_eq!(rx_ring.buffer_info[127].skb, None);
    assert_eq!(actions.last(), Some(&Action::Write { offset: 0x2818, value: 126 }));
    assert!(actions.contains(&Action::Write { offset: 0x3800, value: 0x10_0000 }));
    assert!(actions.contains(&Action::Write { offset: 0x2800, value: 0x20_0000 }));
}

#[test]
fn bringing_up_does_not_unmask_interrupts() {
    let mut rx_ring = Ring::new(0x20_0000);
    let (actions, _, _) = bring_up(netdev(), &mut rx_ring, 0xffff_ffff);
    for action in actions {
        if let Action::Write { offset, .. } = action {
            assert_ne!(offset, E1000_IMS as usize);
        }
    }
}

#[test]
fn a_long_transfer_unit_is_a_fault() {
    let mut rx_ring = Ring::new(0);
    let (_, requests, step) = bring_up(NetDevice { mtu: 1501, ..netdev() }, &mut rx_ring, 0);
    assert_eq!(step, Step::Fault(Fault::MtuTooLong));
    assert_eq!(requests.last(), Some(&Request::Register(E1000_RCTL)));
    assert_eq!(rx_ring, Ring::new(0));
}

#[test]
fn promiscuity_keeps_a_device_down() {
    let mut rx_ring = Ring::new(0);
    let (_, _, step) = bring_up(NetDevice { flags: 0x100, ..netdev() }, &mut rx_ring, 0);
    assert_eq!(step, Step::Fault(Fault::Promiscuous));
}

#[test]
fn a_used_descriptor_keeps_a_device_down() {
    let mut rx_ring = Ring::new(0);
    rx_ring.buffer_info[0].skb = Some(Skb { handle: 1, len: 0 });
    let (_, _, step) = bring_up(netdev(), &mut rx_ring, 0);
    assert_eq!(step, Step::Fault(Fault::SlotInUse));
}

#[test]
fn the_units_are_set_up_in_order() {
    let mut re = Resource::new();
    let tx_ring = Ring::new(0x1000);
    let mut rx_ring = Ring::new(0x2000);
    let configure: Configure = E1000::configure(&netdev());
    assert_eq!(configure.request(), Request::Register(E1000_RCTL));
    let step = configure.step(&tx_ring, &mut rx_ring, Reply::Register(0), &mut re);
    let configure = Configure { netdev: netdev(), phase: ConfigurePhase::Tctl };
    assert_eq!(step, Step::Wait(configure));
    let actions = re.take();
    E1000::set_rx_mode(&mut re, &netdev(), 0);
    E1000::configure_tx(&mut re, &tx_ring);
    assert_eq!(actions, re.take());
    let step = configure.step(&tx_ring, &mut rx_ring, Reply::Register(0), &mut re);
    let configure = Configure { netdev: netdev(), phase: ConfigurePhase::Rctl };
    assert_eq!(step, Step::Wait(configure));
    assert_eq!(re.take(), vec![write(E1000_TCTL, 0x0100_00F8)]);
    let step = configure.step(&tx_ring, &mut rx_ring, Reply::Register(0), &mut re);
    let configure = Configure { netdev: netdev(), phase: ConfigurePhase::RxUnit };
    assert_eq!(step, Step::Wait(configure));
    assert_eq!(re.take(), vec![write(E1000_RCTL, 0x8000)]);
}

#[test]
fn an_answer_to_another_question_does_not_bring_up() {
    let mut re = Resource::new();
    let tx_ring = Ring::new(0);
    let mut rx_ring = Ring::new(0);
    let open = E1000::open(&netdev());
    let step = open.step(&tx_ring, &mut rx_ring, Reply::RxBuffer(buffer(1)), &mut re);
    assert_eq!(step, Step::Wait(open));
    let units = Open::Units(E1000::configure(&netdev()));
    let step = units.step(&tx_ring, &mut rx_ring, Reply::TxStatus(1), &mut re);
    assert_eq!(step, Step::Wait(units));
    assert_eq!(re.take(), vec![]);
}

#[test]
fn traffic_is_let_through_once_a_handler_is_there() {
    let mut re = Resource::new();
    let activate: Activate = E1000::activate(&mut re);
    assert_eq!(
        re.take(),
        vec![
            Action::NapiEnable,
            Action::RegisterIrq,
            write(E1000_IMS, 0x9D),
            Action::Read { offset: E1000_STATUS as usize },
            Action::StartQueue,
            write(E1000_ICS, 4),
            Action::CarrierOn,
        ]
    );
    assert_eq!(activate.register(), E1000_TCTL);
    let step = activate.step(0x0100_00F8, &mut re);
    assert_eq!(step, Step::Wait(Activate::Rx));
    assert_eq!(re.take(), vec![write(E1000_TCTL, 0x0100_00FA)]);
    assert_eq!(Activate::Rx.register(), E1000_RCTL);
    assert_eq!(Activate::Rx.step(0x8000, &mut re), Step::Done(0));
    assert_eq!(re.take(), vec![write(E1000_RCTL, 0x8002), write(E1000_ICS, 0x10)]);
}

/// The whole of bringing up a device whose registers all read as `value`, and that is ready.
fn bring_all_up(
    netdev: NetDevice,
    rx_ring: &mut Ring,
    value: u32,
) -> (Vec<Action>, Step<BringUp, i32>) {
    let mut re = Resource::new();
    let tx_ring = Ring::new(0x10_0000);
    let mut bring_up = E1000::bring_up(&netdev);
    let mut handle = 0;
    loop {
        let reply = match bring_up.request() {
            Request::Register(reg) if reg == E1000_MDIC => Reply::Register(E1000_MDIC_READY),
            Request::Register(_) => Reply::Register(value),
            Request::RxBuffer { .. } => {
                handle += 1;
                Reply::RxBuffer(buffer(handle))
            }
            request => panic!("{:?}", request),
        };
        match bring_up.step(&tx_ring, rx_ring, reply, &mut re) {
            Step::Wait(next) => bring_up = next,
            step => return (re.take(), step),
        }
    }
}

#[test]
fn the_rings_are_set_up_before_anything_is_activated() {
    let mut rx_ring = Ring::new(0x20_0000);
    let (actions, step) = bring_all_up(netdev(), &mut rx_ring, 0);
    assert_eq!(step, Step::Done(0));
    let mut alone = Ring::new(0x20_0000);
    let (set_up, _, _) = bring_up(netdev(), &mut alone, 0);
    assert_eq!(rx_ring, alone);
    let mut expected = set_up;
    let mut re = Resource::new();
    E1000::activate(&mut re);
    expected.extend(re.take());
    expected.push(write(E1000_TCTL, 2));
    expected.push(write(E1000_RCTL, 2));
    expected.push(write(E1000_ICS, 0x10));
    assert_eq!(actions, expected);
    let polled = actions.iter().position(|&a| a == Action::NapiEnable).unwrap();
    for offset in [0x3800, 0x3808, 0x2800, 0x2808] {
        let told = actions.iter().position(
            |a| matches!(a, Action::Write { offset: o, .. } if *o == offset),
        );
        assert!(told.unwrap() < polled);
    }
}

#[test]
fn a_device_that_is_not_set_up_is_not_activated() {
    let mut rx_ring = Ring::new(0);
    let (actions, step) = bring_all_up(NetDevice { mtu: 1501, ..netdev() }, &mut rx_ring, 0);
    assert_eq!(step, Step::Fault(Fault::MtuTooLong));
    assert!(!actions.contains(&Action::NapiEnable));
    assert!(!actions.contains(&Action::RegisterIrq));
}

#[test]
fn an_answer_to_another_question_does_not_activate() {
    let mut re = Resource::new();
    let tx_ring = Ring::new(0);
    let mut rx_ring = Ring::new(0);
    let activate = BringUp::Activate(Activate::Tx);
    assert_eq!(activate.request(), Request::Register(E1000_TCTL));
    let step = activate.step(&tx_ring, &mut rx_ring, Reply::TxStatus(1), &mut re);
    assert_eq!(step, Step::Wait(activate));
    assert_eq!(re.take(), vec![]);
}
