use e1000::poll::Clean;
use e1000::protocol::{Action, Fault, Reply, Request, Step};
use e1000::receive::{RxBuffer, RxStatus};
use e1000::resource::Resource;
use e1000::ring::{Buffer, Ring, Skb};
use e1000::E1000;

fn rings() -> (Ring, Ring) {
    let mut rx_ring = Ring::new(0);
    for i in 0..127 {
        let skb = Some(Skb { handle: 100 + i, len: 0 });
        rx_ring.buffer_info[i] = Buffer { skb, dma: 0x1000 * i as u64, length: 0 };
    }
    rx_ring.next_to_use = 127;
    let mut tx_ring = Ring::new(0);
    tx_ring.buffer_info[0] =
        Buffer { skb: Some(Skb { handle: 7, len: 90 }), dma: 0xAA, length: 90 };
    tx_ring.next_to_use = 1;
    (rx_ring, tx_ring)
}

fn frame(length: u16) -> Reply {
    Reply::RxStatus(RxStatus { status: 1, length })
}

const NO_FRAME: Reply = Reply::RxStatus(RxStatus { status: 0, length: 0 });

fn posted(handle: usize) -> Reply {
    Reply::RxBuffer(RxBuffer { skb: Skb { handle, len: 0 }, dma: 0xB000 + handle as u64 })
}

#[test]
fn a_round_hands_on_refills_and_takes_back() {
    let (mut rx_ring, mut tx_ring) = rings();
    let mut re = Resource::new();
    let mut clean = E1000::clean(&rx_ring);
    let round = [
        (Request::RxStatus { slot: 0 }, frame(64)),
        (Request::RxStatus { slot: 1 }, frame(104)),
        (Request::RxStatus { slot: 2 }, NO_FRAME),
        (Request::RxBuffer { length: 2048 }, posted(1)),
        (Request::RxBuffer { length: 2048 }, posted(2)),
        (Request::TxStatus { slot: 0 }, Reply::TxStatus(1)),
        (Request::TxStatus { slot: 1 }, Reply::TxStatus(0)),
    ];
    let mut end = None;
    for (request, reply) in round {
        assert_eq!(end, None);
        assert_eq!(clean.request(), request);
        match clean.step(&mut rx_ring, &mut tx_ring, reply, &mut re) {
            Step::Wait(next) => clean = next,
            step => end = Some(step),
        }
    }
    assert_eq!(end, Some(Step::Done(1)));
    assert_eq!(
        re.take(),
        vec![
            Action::UnmapRx { dma: 0, length: 2048 },
            Action::ReceiveSkb { skb: 100, length: 60 },
            Action::ClearRxDesc { slot: 0 },
            Action::UnmapRx { dma: 0x1000, length: 2048 },
            Action::ReceiveSkb { skb: 101, length: 100 },
            Action::ClearRxDesc { slot: 1 },
            Action::RxStats { bytes: 160, packets: 2 },
            Action::PostRxDesc { slot: 127, addr: 0xB001 },
            Action::PostRxDesc { slot: 0, addr: 0xB002 },
            Action::Write { offset: 0x2818, value: 0 },
            Action::UnmapTx { dma: 0xAA, length: 90 },
            Action::ClearTxDesc { slot: 0 },
            Action::ConsumeSkb { skb: 7, budget: 64 },
            Action::TxStats { bytes: 90, packets: 1 },
            Action::CompletedQueue { packets: 1, bytes: 90 },
            Action::NapiComplete { work: 1 },
        ]
    );
    assert_eq!(E1000::unused_desc(&rx_ring), 0);
    assert_eq!(rx_ring.next_to_clean, 2);
    assert_eq!(rx_ring.next_to_use, 1);
    assert_eq!(tx_ring.next_to_clean, 1);
}

#[test]
fn a_round_without_traffic_still_completes() {
    let (mut rx_ring, mut tx_ring) = rings();
    let before = (rx_ring, tx_ring);
    let mut re = Resource::new();
    let clean = E1000::clean(&rx_ring);
    let clean = match clean.step(&mut rx_ring, &mut tx_ring, NO_FRAME, &mut re) {
        Step::Wait(next) => next,
        step => panic!("{:?}", step),
    };
    let step = clean.step(&mut rx_ring, &mut tx_ring, Reply::TxStatus(0), &mut re);
    assert_eq!(step, Step::Done(1));
    assert_eq!(
        re.take(),
        vec![
            Action::RxStats { bytes: 0, packets: 0 },
            Action::TxStats { bytes: 0, packets: 0 },
            Action::CompletedQueue { packets: 0, bytes: 0 },
            Action::NapiComplete { work: 1 },
        ]
    );
    assert_eq!((rx_ring, tx_ring), before);
}

#[test]
fn an_answer_to_another_question_changes_nothing() {
    let (mut rx_ring, mut tx_ring) = rings();
    let before = (rx_ring, tx_ring);
    let mut re = Resource::new();
    let clean: Clean = E1000::clean(&rx_ring);
    for reply in [Reply::Register(1), Reply::TxStatus(1), posted(1)] {
        let step = clean.step(&mut rx_ring, &mut tx_ring, reply, &mut re);
        assert_eq!(step, Step::Wait(clean));
    }
    assert_eq!(re.take(), vec![]);
    assert_eq!((rx_ring, tx_ring), before);
}

#[test]
fn a_fault_ends_the_round() {
    let (mut rx_ring, mut tx_ring) = rings();
    let mut re = Resource::new();
    let clean = E1000::clean(&rx_ring);
    let step = clean.step(&mut rx_ring, &mut tx_ring, frame(2), &mut re);
    assert_eq!(step, Step::Fault(Fault::ShortFrame));
}
