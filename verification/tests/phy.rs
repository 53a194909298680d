use e1000::defs::{
    E1000_CTRL, E1000_CTRL_MDC, E1000_CTRL_MDC_DIR, E1000_CTRL_MDIO, E1000_CTRL_MDIO_DIR,
    E1000_MDIC, E1000_MDIC_READY, E1000_STATUS,
};
use e1000::phy::{PowerUpPhy, ReadPhyReg, ShiftInMdiBits, WritePhyReg};
use e1000::protocol::{Action, Fault, Step};
use e1000::resource::Resource;
use e1000::E1000;

fn held(value: u32) -> Vec<Action> {
    vec![
        Action::Write { offset: E1000_CTRL as usize, value },
        Action::Read { offset: E1000_STATUS as usize },
        Action::ConstUdelay(10),
    ]
}

/// The levels of the data wire at the rises of the clock.
fn clocked(actions: &[Action]) -> Vec<bool> {
    let mut clock = false;
    let mut bits = Vec::new();
    for action in actions {
        if let Action::Write { offset, value } = *action {
            if offset == E1000_CTRL as usize {
                let high = value & E1000_CTRL_MDC != 0;
                if high && !clock {
                    bits.push(value & E1000_CTRL_MDIO != 0);
                }
                clock = high;
            }
        }
    }
    bits
}

fn sample(bit: bool) -> u32 {
    if bit {
        0x40 | E1000_CTRL_MDIO
    } else {
        0x40
    }
}

#[test]
fn the_management_clock_is_raised_and_lowered() {
    let mut re = Resource::new();
    E1000::raise_mdi_clk(&mut re, 0x40);
    assert_eq!(re.take(), held(0x0020_0040));
    E1000::lower_mdi_clk(&mut re, 0x0030_0040);
    assert_eq!(re.take(), held(0x0010_0040));
}

#[test]
fn bits_go_out_to_the_phy_highest_first() {
    let mut re = Resource::new();
    E1000::shift_out_mdi_bits(&mut re, 0, 0b101, 3);
    let driven = E1000_CTRL_MDIO_DIR | E1000_CTRL_MDC_DIR;
    let one = driven | E1000_CTRL_MDIO;
    let mut expected = Vec::new();
    for level in [one, driven, one] {
        expected.extend(held(level));
        expected.extend(held(level | E1000_CTRL_MDC));
        expected.extend(held(level));
    }
    let actions = re.take();
    assert_eq!(actions, expected);
    assert_eq!(clocked(&actions), vec![true, false, true]);
}

#[test]
fn a_read_is_preamble_command_and_word() {
    let mut re = Resource::new();
    let mut read: ReadPhyReg = E1000::read_phy_reg(2);
    let mut bits = Vec::new();
    for level in [0x40, 0x41, 0x42] {
        assert_eq!(read.register(), E1000_CTRL);
        read = match read.step(level, &mut re) {
            Step::Wait(next) => next,
            step => panic!("{:?}", step),
        };
        bits.push(clocked(&re.take()));
    }
    assert_eq!(bits[0], vec![true; 32]);
    // Start, read, the first PHY, register 2.
    let command = [0, 1, 1, 0, 0, 0, 0, 0, 1, 0, 0, 0, 1, 0];
    assert_eq!(bits[1], command.iter().map(|&bit| bit == 1).collect::<Vec<bool>>());
    let word = 0x8C41u16;
    for k in (0..16).rev() {
        let step = read.step(sample((word >> k) & 1 == 1), &mut re);
        match step {
            Step::Wait(next) => {
                assert!(k > 0);
                read = next;
            }
            Step::Done(data) => {
                assert_eq!(k, 0);
                assert_eq!(data, word);
            }
            Step::Fault(fault) => panic!("{:?}", fault),
        }
    }
}

#[test]
fn the_data_wire_is_given_to_the_phy_before_the_word() {
    let mut re = Resource::new();
    let ctrl = 0x40 | E1000_CTRL_MDIO | E1000_CTRL_MDIO_DIR | E1000_CTRL_MDC_DIR;
    let step = ShiftInMdiBits::Start.step(ctrl, &mut re);
    assert_eq!(step, Step::Wait(ShiftInMdiBits::Sample { data: 0, left: 16 }));
    let idle = 0x40 | E1000_CTRL_MDC_DIR;
    let mut expected = vec![
        Action::Write { offset: E1000_CTRL as usize, value: idle },
        Action::Read { offset: E1000_STATUS as usize },
    ];
    expected.extend(held(idle | E1000_CTRL_MDC));
    expected.extend(held(idle));
    expected.extend(held(idle | E1000_CTRL_MDC));
    assert_eq!(re.take(), expected);
}

#[test]
fn the_last_bit_is_followed_by_one_more_pulse() {
    let mut re = Resource::new();
    let shift_in = ShiftInMdiBits::Sample { data: 0b11, left: 1 };
    assert_eq!(shift_in.register(), E1000_CTRL);
    let step = shift_in.step(0x40 | E1000_CTRL_MDC, &mut re);
    assert_eq!(step, Step::Done(0b110));
    let mut expected = held(0x40);
    expected.extend(held(0x40 | E1000_CTRL_MDC));
    expected.extend(held(0x40));
    assert_eq!(re.take(), expected);
}

#[test]
fn a_write_is_one_command() {
    let mut re = Resource::new();
    let write: WritePhyReg = E1000::write_phy_reg(&mut re, 0x1F, 0xABCD);
    assert_eq!(write.register(), E1000_MDIC);
    assert_eq!(
        re.take(),
        vec![
            Action::Write { offset: E1000_MDIC as usize, value: 0x043F_ABCD },
            Action::ConstUdelay(5),
        ]
    );
    assert_eq!(write.step(E1000_MDIC_READY, &mut re), Step::Done(()));
    assert_eq!(re.take(), vec![]);
}

#[test]
fn a_phy_that_is_not_ready_is_a_fault() {
    let mut re = Resource::new();
    let write = E1000::write_phy_reg(&mut re, 0, 0);
    assert_eq!(write.step(!E1000_MDIC_READY, &mut re), Step::Fault(Fault::PhyNotReady));
}

fn power_up(word: u16, mdic: u32) -> (Vec<Action>, Step<PowerUpPhy, ()>) {
    let mut re = Resource::new();
    let mut power_up: PowerUpPhy = E1000::power_up_phy();
    let mut answers = vec![0x40; 3];
    answers.extend((0..16).rev().map(|k| sample((word >> k) & 1 == 1)));
    for answer in answers {
        assert_eq!(power_up.register(), E1000_CTRL);
        power_up = match power_up.step(answer, &mut re) {
            Step::Wait(next) => next,
            step => panic!("{:?}", step),
        };
    }
    assert_eq!(power_up.register(), E1000_MDIC);
    let step = power_up.step(mdic, &mut re);
    (re.take(), step)
}

#[test]
fn powering_up_clears_the_power_down_bit_alone() {
    let (actions, step) = power_up(0x9940, E1000_MDIC_READY);
    assert_eq!(step, Step::Done(()));
    assert_eq!(
        actions[actions.len() - 2..],
        [
            Action::Write { offset: E1000_MDIC as usize, value: 0x0420_9140 },
            Action::ConstUdelay(5),
        ]
    );
}

#[test]
fn powering_up_needs_a_ready_phy() {
    let (_, step) = power_up(0x1140, 0);
    assert_eq!(step, Step::Fault(Fault::PhyNotReady));
}
