use e1000::defs::E1000_RDT;
use e1000::protocol::{Action, Fault, Step};
use e1000::receive::{AllocRxBuffers, CleanRxIrq, RxBuffer, RxStatus};
use e1000::resource::Resource;
use e1000::ring::{Buffer, Ring, Skb};
use e1000::E1000;

fn buffer(handle: usize) -> RxBuffer {
    RxBuffer { skb: Skb { handle, len: 0 }, dma: 0x1_0000 * handle as u64 }
}

fn post(ring: &mut Ring, count: u16, first: usize) -> (Vec<Action>, Step<AllocRxBuffers, ()>) {
    let mut re = Resource::new();
    let mut step = E1000::alloc_rx_buffers(&mut re, ring, count);
    let mut handle = first;
    while let Step::Wait(alloc) = step {
        assert_eq!(alloc.length(), 2048);
        step = alloc.step(ring, buffer(handle), &mut re);
        handle += 1;
    }
    (re.take(), step)
}

fn clean(ring: &mut Ring, reports: &[RxStatus]) -> (Vec<Action>, Step<CleanRxIrq, usize>) {
    let mut re = Resource::new();
    let mut clean = E1000::clean_rx_irq(ring);
    for report in reports {
        match clean.step(ring, *report, &mut re) {
            Step::Wait(next) => clean = next,
            step => return (re.take(), step),
        }
    }
    (re.take(), Step::Wait(clean))
}

fn frame(length: u16) -> RxStatus {
    RxStatus { status: 0x03, length }
}

const EMPTY: RxStatus = RxStatus { status: 0xFE, length: 0 };

#[test]
fn buffers_are_posted_and_the_adapter_is_told_of_the_last() {
    let mut ring = Ring::new(0);
    ring.next_to_use = 126;
    ring.next_to_clean = 126;
    let (actions, step) = post(&mut ring, 3, 1);
    assert_eq!(step, Step::Done(()));
    assert_eq!(
        actions,
        vec![
            Action::PostRxDesc { slot: 126, addr: 0x1_0000 },
            Action::PostRxDesc { slot: 127, addr: 0x2_0000 },
            Action::PostRxDesc { slot: 0, addr: 0x3_0000 },
            Action::Write { offset: E1000_RDT as usize, value: 0 },
        ]
    );
    assert_eq!(ring.next_to_use, 1);
    assert_eq!(
        ring.buffer_info[127],
        Buffer { skb: Some(Skb { handle: 2, len: 0 }), dma: 0x2_0000, length: 0 }
    );
}

#[test]
fn a_posting_that_ends_at_the_last_descriptor_names_it() {
    let mut ring = Ring::new(0);
    ring.next_to_use = 127;
    ring.next_to_clean = 127;
    let (actions, _) = post(&mut ring, 1, 1);
    assert_eq!(
        actions.last(),
        Some(&Action::Write { offset: E1000_RDT as usize, value: 127 })
    );
    assert_eq!(ring.next_to_use, 0);
}

#[test]
fn nothing_to_post_is_nothing_to_tell() {
    let mut ring = Ring::new(0);
    let (actions, step) = post(&mut ring, 0, 1);
    assert_eq!(step, Step::Done(()));
    assert_eq!(actions, vec![]);
    assert_eq!(ring, Ring::new(0));
}

#[test]
fn a_whole_round_leaves_the_position_and_tells_nothing() {
    let mut ring = Ring::new(0);
    let (actions, step) = post(&mut ring, 128, 1);
    assert_eq!(step, Step::Done(()));
    assert_eq!(actions.len(), 128);
    assert_eq!(ring.next_to_use, 0);
}

#[test]
fn a_descriptor_in_use_is_a_fault() {
    let mut ring = Ring::new(0);
    ring.buffer_info[2].skb = Some(Skb { handle: 9, len: 0 });
    let (actions, step) = post(&mut ring, 3, 1);
    assert_eq!(step, Step::Fault(Fault::SlotInUse));
    assert_eq!(actions.len(), 2);
    assert_eq!(ring.next_to_use, 0);
}

#[test]
fn a_buffer_that_cannot_be_mapped_is_a_fault() {
    let mut ring = Ring::new(0);
    let mut re = Resource::new();
    let alloc = match E1000::alloc_rx_buffers(&mut re, &mut ring, 1) {
        Step::Wait(alloc) => alloc,
        step => panic!("{:?}", step),
    };
    let unmapped = RxBuffer { dma: u64::MAX, ..buffer(1) };
    assert_eq!(alloc.step(&mut ring, unmapped, &mut re), Step::Fault(Fault::NotMapped));
    assert_eq!(re.take(), vec![]);
    assert_eq!(ring, Ring::new(0));
}

#[test]
fn frames_are_handed_on_in_order_without_their_checksums() {
    let mut ring = Ring::new(0);
    ring.next_to_use = 126;
    ring.next_to_clean = 126;
    post(&mut ring, 5, 1);
    let (actions, step) = clean(&mut ring, &[frame(64), frame(1518), frame(4), EMPTY]);
    assert_eq!(step, Step::Done(3));
    let mut expected = Vec::new();
    for (k, length) in [60, 1514, 0].into_iter().enumerate() {
        expected.push(Action::UnmapRx { dma: 0x1_0000 * (k as u64 + 1), length: 2048 });
        expected.push(Action::ReceiveSkb { skb: k + 1, length });
        expected.push(Action::ClearRxDesc { slot: (126 + k) % 128 });
    }
    expected.push(Action::RxStats { bytes: 1574, packets: 3 });
    assert_eq!(actions, expected);
    assert_eq!(ring.next_to_clean, 1);
    assert_eq!(ring.next_to_use, 3);
    assert_eq!(ring.buffer_info[0], Buffer { skb: None, dma: 0, length: 0 });
    assert_eq!(ring.buffer_info[1].skb, Some(Skb { handle: 4, len: 0 }));
}

#[test]
fn the_descriptors_are_looked_at_in_order() {
    let mut ring = Ring::new(0);
    ring.next_to_use = 127;
    ring.next_to_clean = 127;
    post(&mut ring, 2, 1);
    let mut re = Resource::new();
    let clean = E1000::clean_rx_irq(&ring);
    assert_eq!(clean.slot(), 127);
    match clean.step(&mut ring, frame(64), &mut re) {
        Step::Wait(next) => assert_eq!(next.slot(), 0),
        step => panic!("{:?}", step),
    }
}

#[test]
fn a_frame_shorter_than_its_checksum_is_a_fault() {
    let mut ring = Ring::new(0);
    post(&mut ring, 1, 1);
    let (actions, step) = clean(&mut ring, &[frame(3)]);
    assert_eq!(step, Step::Fault(Fault::ShortFrame));
    assert_eq!(actions, vec![Action::UnmapRx { dma: 0x1_0000, length: 2048 }]);
}

#[test]
fn a_frame_without_a_buffer_is_a_fault() {
    let mut ring = Ring::new(0);
    let (actions, step) = clean(&mut ring, &[frame(64)]);
    assert_eq!(step, Step::Fault(Fault::NoBuffer));
    assert_eq!(actions, vec![Action::UnmapRx { dma: 0, length: 2048 }]);
}

#[test]
fn more_bytes_than_their_counter_holds_are_a_fault() {
    let mut ring = Ring::new(0);
    post(&mut ring, 127, 1);
    let reports = vec![frame(1518); 44];
    // 43 full frames are 65102 bytes, one more does not fit.
    assert!(matches!(clean(&mut ring.clone(), &reports[..43]).1, Step::Wait(_)));
    let (actions, step) = clean(&mut ring, &reports);
    assert_eq!(step, Step::Fault(Fault::ByteCount));
    assert_eq!(actions.last(), Some(&Action::ClearRxDesc { slot: 43 }));
}
