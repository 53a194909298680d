use e1000::defs::{E1000_TDT, E1000_TXD_STAT_DD};
use e1000::protocol::{Action, Fault, Reply, Request, Step};
use e1000::resource::Resource;
use e1000::ring::{Buffer, Ring, Skb};
use e1000::transmit::{CleanTxIrq, Packet, TxDesc, Xmit};
use e1000::E1000;

fn packet(handle: usize, len: u32) -> Packet {
    Packet { handle, len, data_len: 0, gso_size: 0, nr_frags: 0 }
}

fn refused(packet: Packet) -> Fault {
    let mut re = Resource::new();
    let mut ring = Ring::new(0);
    let xmit = E1000::xmit(&mut re);
    re.take();
    match xmit.step(&mut ring, Reply::Packet(packet), &mut re) {
        Step::Fault(fault) => {
            assert_eq!(re.take(), vec![]);
            assert_eq!(ring, Ring::new(0));
            fault
        }
        step => panic!("{:?}", step),
    }
}

fn send(ring: &mut Ring, packet: Packet, dma: u64) -> Vec<Action> {
    let mut re = Resource::new();
    let xmit = E1000::xmit(&mut re);
    assert_eq!(re.take(), vec![Action::PadSkb { length: 60 }]);
    assert_eq!(xmit.request(), Request::Packet);
    let xmit = match xmit.step(ring, Reply::Packet(packet), &mut re) {
        Step::Wait(next) => next,
        step => panic!("{:?}", step),
    };
    let length = (packet.len - packet.data_len) as usize;
    assert_eq!(xmit.request(), Request::MapPacket { length });
    assert_eq!(xmit.step(ring, Reply::MapPacket(dma), &mut re), Step::Done(0));
    re.take()
}

fn clean(ring: &mut Ring, done: usize) -> (Vec<Action>, Step<CleanTxIrq, ()>) {
    let mut re = Resource::new();
    let mut clean = E1000::clean_tx_irq(ring);
    for k in 0.. {
        let upper = if k < done { E1000_TXD_STAT_DD } else { 0 };
        let before = clean.slot();
        match clean.step(ring, upper, &mut re) {
            Step::Wait(next) => {
                assert_eq!(next.slot(), (before + 1) % 128);
                clean = next;
            }
            step => return (re.take(), step),
        }
    }
    unreachable!()
}

#[test]
fn a_packet_is_put_in_the_next_descriptor() {
    let mut ring = Ring::new(0);
    ring.next_to_use = 127;
    ring.next_to_clean = 127;
    let packet = Packet { handle: 42, len: 100, data_len: 30, gso_size: 0, nr_frags: 0 };
    let actions = send(&mut ring, packet, 0xF000);
    assert_eq!(
        actions,
        vec![
            Action::SentQueue { bytes: 100 },
            Action::WriteTxDesc {
                slot: 127,
                desc: TxDesc { buffer_addr: 0xF000, lower: 0x0B00_0046, upper: 0 },
            },
            Action::Write { offset: E1000_TDT as usize, value: 0 },
        ]
    );
    assert_eq!(
        ring.buffer_info[127],
        Buffer { skb: Some(Skb { handle: 42, len: 100 }), dma: 0xF000, length: 70 }
    );
    assert_eq!(ring.next_to_use, 0);
    assert_eq!(ring.next_to_clean, 127);
}

#[test]
fn a_segmented_packet_is_a_fault() {
    assert_eq!(refused(Packet { gso_size: 1448, ..packet(1, 60) }), Fault::Segmented);
}

#[test]
fn a_fragmented_packet_is_a_fault() {
    assert_eq!(refused(Packet { nr_frags: 1, ..packet(1, 60) }), Fault::Fragmented);
}

#[test]
fn a_packet_with_more_bytes_outside_than_in_all_is_a_fault() {
    assert_eq!(refused(Packet { data_len: 61, ..packet(1, 60) }), Fault::BadLength);
}

#[test]
fn segmentation_is_looked_at_before_fragments_and_lengths() {
    let bad = Packet { handle: 1, len: 1, data_len: 2, gso_size: 1, nr_frags: 1 };
    assert_eq!(refused(bad), Fault::Segmented);
    assert_eq!(refused(Packet { gso_size: 0, ..bad }), Fault::Fragmented);
}

#[test]
fn a_packet_that_cannot_be_mapped_is_a_fault() {
    let mut re = Resource::new();
    let mut ring = Ring::new(0);
    let xmit = Xmit::Mapping { skb: Skb { handle: 1, len: 60 }, size: 60 };
    let step = xmit.step(&mut ring, Reply::MapPacket(u64::MAX), &mut re);
    assert_eq!(step, Step::Fault(Fault::NotMapped));
    assert_eq!(re.take(), vec![]);
    assert_eq!(ring, Ring::new(0));
}

#[test]
fn an_answer_to_another_question_does_not_send() {
    let mut re = Resource::new();
    let mut ring = Ring::new(0);
    let step = Xmit::Inspect.step(&mut ring, Reply::MapPacket(1), &mut re);
    assert_eq!(step, Step::Wait(Xmit::Inspect));
    let xmit = Xmit::Mapping { skb: Skb { handle: 1, len: 60 }, size: 60 };
    let step = xmit.step(&mut ring, Reply::Register(1), &mut re);
    assert_eq!(step, Step::Wait(xmit));
    assert_eq!(re.take(), vec![]);
    assert_eq!(ring, Ring::new(0));
}

#[test]
fn sent_packets_come_back_in_order_and_once() {
    let mut ring = Ring::new(0);
    ring.next_to_use = 126;
    ring.next_to_clean = 126;
    for k in 0..4 {
        send(&mut ring, packet(k + 1, 60 + k as u32), 0x1000 * (k as u64 + 1));
    }
    assert_eq!(ring.next_to_use, 2);
    let (actions, step) = clean(&mut ring, 3);
    assert_eq!(step, Step::Done(()));
    let mut expected = Vec::new();
    for k in 0..3 {
        expected.push(Action::UnmapTx { dma: 0x1000 * (k as u64 + 1), length: 60 + k });
        expected.push(Action::ClearTxDesc { slot: (126 + k) % 128 });
        expected.push(Action::ConsumeSkb { skb: k + 1, budget: 64 });
    }
    expected.push(Action::TxStats { bytes: 183, packets: 3 });
    expected.push(Action::CompletedQueue { packets: 3, bytes: 183 });
    assert_eq!(actions, expected);
    assert_eq!(ring.next_to_clean, 1);
    assert_eq!(ring.buffer_info[0], Buffer { skb: None, dma: 0, length: 62 });
    assert_eq!(ring.buffer_info[1].skb, Some(Skb { handle: 4, len: 63 }));
    let (actions, step) = clean(&mut ring, 1);
    assert_eq!(step, Step::Done(()));
    assert_eq!(actions[2], Action::ConsumeSkb { skb: 4, budget: 64 });
    assert_eq!(ring.next_to_clean, ring.next_to_use);
}

#[test]
fn nothing_is_taken_back_that_the_adapter_is_not_done_with() {
    let mut ring = Ring::new(0);
    send(&mut ring, packet(1, 60), 0x1000);
    let before = ring;
    let (actions, step) = clean(&mut ring, 0);
    assert_eq!(step, Step::Done(()));
    assert_eq!(
        actions,
        vec![
            Action::TxStats { bytes: 0, packets: 0 },
            Action::CompletedQueue { packets: 0, bytes: 0 },
        ]
    );
    assert_eq!(ring, before);
}

#[test]
fn a_descriptor_done_without_a_packet_is_a_fault() {
    let mut ring = Ring::new(0);
    send(&mut ring, packet(1, 60), 0x1000);
    let (actions, step) = clean(&mut ring, 2);
    assert_eq!(step, Step::Fault(Fault::NoBuffer));
    assert_eq!(actions.last(), Some(&Action::UnmapTx { dma: 0, length: 0 }));
}

#[test]
fn an_adapter_done_with_everything_is_caught_after_one_round() {
    let mut ring = Ring::new(0);
    for k in 0..127 {
        send(&mut ring, packet(k, 60), 0x1000);
    }
    assert_eq!(E1000::unused_desc(&ring), 0);
    let (actions, step) = clean(&mut ring, usize::MAX);
    assert_eq!(step, Step::Fault(Fault::NoBuffer));
    assert_eq!(actions.len(), 127 * 3 + 1);
}

#[test]
fn bytes_that_do_not_fit_are_a_fault() {
    let mut ring = Ring::new(0);
    send(&mut ring, packet(1, u32::MAX), 0x1000);
    send(&mut ring, packet(2, 1), 0x2000);
    let (actions, step) = clean(&mut ring, 2);
    assert_eq!(step, Step::Fault(Fault::ByteCount));
    assert_eq!(actions.last(), Some(&Action::ClearTxDesc { slot: 1 }));
}
