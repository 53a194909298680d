use e1000::defs::{DEFAULT_TXD, DESC_SIZE};
use e1000::ring::{next_slot, Buffer, Ring};
use e1000::E1000;

#[test]
fn descriptors_take_whole_pages() {
    assert_eq!(Ring::alloc_size(DESC_SIZE), 4096);
    assert_eq!(Ring::alloc_size(32), 4096);
    assert_eq!(Ring::alloc_size(33), 8192);
    assert_eq!(Ring::alloc_size(0), 0);
}

#[test]
fn a_new_ring_is_empty() {
    let ring = Ring::new(0x1234_5000);
    assert_eq!(ring.dma_addr, 0x1234_5000);
    assert_eq!(ring.next_to_use, 0);
    assert_eq!(ring.next_to_clean, 0);
    for i in 0..DEFAULT_TXD {
        assert_eq!(ring.buffer_info[i], Buffer { skb: None, dma: 0, length: 0 });
    }
    assert_eq!(E1000::unused_desc(&ring), 127);
}

#[test]
fn the_ring_wraps_round() {
    assert_eq!(next_slot(0), 1);
    assert_eq!(next_slot(126), 127);
    assert_eq!(next_slot(127), 0);
}

#[test]
fn one_descriptor_stays_unused() {
    let mut ring = Ring::new(0);
    ring.next_to_use = 127;
    assert_eq!(E1000::unused_desc(&ring), 0);
    ring.next_to_clean = 5;
    assert_eq!(E1000::unused_desc(&ring), 5);
    ring.next_to_use = 3;
    assert_eq!(E1000::unused_desc(&ring), 1);
    ring.next_to_use = 4;
    assert_eq!(E1000::unused_desc(&ring), 0);
    ring.next_to_use = 5;
    assert_eq!(E1000::unused_desc(&ring), 127);
}
