//! The descriptor rings that the adapter and the driver share.

use vstd::array::spec_array_update;
use vstd::prelude::*;
use crate::defs::DEFAULT_TXD;
use crate::E1000;

verus! {

/// A packet buffer of the kernel, by its handle.
#[derive(Clone, Copy, PartialEq, Eq, Debug)]
pub struct Skb {
    pub handle: usize,
    /// Bytes that the buffer holds.
    pub len: u32,
}

/// What the driver keeps for one descriptor.
#[derive(Clone, Copy, PartialEq, Eq, Debug)]
pub struct Buffer {
    pub skb: Option<Skb>,
    /// Where the adapter sees the buffer.
    pub dma: u64,
    /// Bytes that the adapter may see.
    pub length: usize,
}

/// A ring of descriptors. The driver hands descriptors out at `next_to_use` and takes them back at
/// `next_to_clean`.
#[derive(Clone, Copy, PartialEq, Eq, Debug)]
pub struct Ring {
    pub buffer_info: [Buffer; DEFAULT_TXD],
    /// Where the adapter sees the descriptors.
    pub dma_addr: u64,
    pub next_to_use: u16,
    pub next_to_clean: u16,
}

/// The descriptor after descriptor `i`.
pub open spec fn after(i: int) -> int {
    (i + 1) % DEFAULT_TXD as int
}

impl Ring {
    /// Both positions lie in the ring.
    pub open spec fn wf(self) -> bool {
        self.next_to_use < DEFAULT_TXD && self.next_to_clean < DEFAULT_TXD
    }

    /// What is kept for descriptor `i`.
    pub open spec fn slot(self, i: int) -> Buffer {
        self.buffer_info[i]
    }

    /// The ring with `buffer` kept for descriptor `i`.
    pub open spec fn with_slot(self, i: int, buffer: Buffer) -> Ring {
        Ring { buffer_info: spec_array_update(self.buffer_info, i, buffer), ..self }
    }

    /// The ring with descriptor `i` without a buffer.
    pub open spec fn emptied(self, i: int) -> Ring {
        self.with_slot(i, Buffer { skb: None, dma: 0, ..self.slot(i) })
    }

    /// From the descriptor to be taken back next, `n` descriptors have been emptied and `i` is
    /// the one after them.
    pub open spec fn walked(self, i: int, n: int) -> bool {
        &&& self.wf()
        &&& 0 <= n <= DEFAULT_TXD
        &&& i == (self.next_to_clean + n) % DEFAULT_TXD as int
        &&& forall|k: int|
            0 <= k < n ==> (#[trigger] self.slot(
                (self.next_to_clean + k) % DEFAULT_TXD as int,
            )).skb is None
    }

    /// Bytes to allocate for the descriptors: room for all of them, in whole pages.
    pub fn alloc_size(desc_size: usize) -> (size: usize)
        requires
            DEFAULT_TXD * desc_size + 4096 <= usize::MAX,
        ensures
            size % 4096 == 0,
            DEFAULT_TXD * desc_size <= size < DEFAULT_TXD * desc_size + 4096,
    {
        let size: usize = DEFAULT_TXD * desc_size;
        let size: usize = size + 4096 - 1;
        assert(size & !4095 == size - size % 4096) by (bit_vector);
        size & !(4096 - 1)
    }

    /// An empty ring whose descriptors the adapter sees at `dma_addr`.
    pub fn new(dma_addr: u64) -> (ring: Ring)
        ensures
            ring.wf(),
            ring.dma_addr == dma_addr,
            ring.next_to_use == 0,
            ring.next_to_clean == 0,
            forall|i: int|
                0 <= i < DEFAULT_TXD ==> ring.slot(i) == (Buffer { skb: None, dma: 0, length: 0 }),
    {
        Ring {
            buffer_info: [Buffer { skb: None, dma: 0, length: 0 }; DEFAULT_TXD],
            dma_addr,
            next_to_use: 0,
            next_to_clean: 0,
        }
    }
}

impl Ring {
    /// Emptying the descriptor that a walk has come to takes the walk one further. There is always
    /// room for another step while that descriptor has a buffer.
    pub proof fn lemma_walk(self, i: int, n: int)
        requires
            self.walked(i, n),
            self.slot(i).skb is Some,
        ensures
            n < DEFAULT_TXD,
            self.emptied(i).walked(after(i), n + 1),
    {
        let m = DEFAULT_TXD as int;
        if n == m {
            assert(self.slot((self.next_to_clean + 0) % m).skb is None);
            assert(i == self.next_to_clean);
        }
        assert(after(i) == (self.next_to_clean + (n + 1)) % m);
        let emptied = self.emptied(i);
        assert forall|k: int| 0 <= k < n + 1 implies (#[trigger] emptied.slot(
            (emptied.next_to_clean + k) % m,
        )).skb is None by {
            let j = (self.next_to_clean + k) % m;
            assert(0 <= j < m);
            if j != i {
                assert(k < n);
                assert(self.slot((self.next_to_clean + k) % m).skb is None);
            }
        }
    }
}

/// A procedure together with the ring that it works on.
pub struct OnRing<M> {
    pub procedure: M,
    pub ring: Ring,
}

/// The descriptor after descriptor `i`.
pub fn next_slot(i: usize) -> (next: usize)
    requires
        i < DEFAULT_TXD,
    ensures
        next == after(i as int),
        next < DEFAULT_TXD,
{
    let mut i: usize = i;
    i += 1;
    if i == DEFAULT_TXD {
        i = 0;
    }
    i
}

/// How many descriptors of `ring` can still be handed out; one always stays unused.
pub open spec fn unused(ring: Ring) -> int {
    (ring.next_to_clean - ring.next_to_use - 1) % DEFAULT_TXD as int
}

impl E1000 {
    /// How many descriptors of `ring` can still be handed out.
    pub fn unused_desc(ring: &Ring) -> (count: u16)
        requires
            ring.wf(),
        ensures
            count == unused(*ring),
    {
        // Reserve one.
        if ring.next_to_clean > ring.next_to_use {
            ring.next_to_clean - ring.next_to_use - 1
        } else {
            DEFAULT_TXD as u16 + ring.next_to_clean - ring.next_to_use - 1
        }
    }
}

/// A descriptor without a buffer keeps nothing that could be unmapped again, and no other
/// descriptor is touched.
pub proof fn law_emptied(ring: Ring, i: int, k: int)
    requires
        0 <= i < 128,
        0 <= k < 128,
    ensures
        ring.emptied(i).slot(i).skb is None,
        ring.emptied(i).slot(i).dma == 0,
        ring.emptied(i).slot(i).length == ring.slot(i).length,
        k != i ==> ring.emptied(i).slot(k) == ring.slot(k),
        ring.emptied(i).next_to_use == ring.next_to_use,
        ring.emptied(i).next_to_clean == ring.next_to_clean,
        ring.emptied(i).dma_addr == ring.dma_addr,
{
}

/// Descriptors follow each other in a circle of 128: each but the last by its number, the last by
/// the first.
pub proof fn law_circle(i: int)
    requires
        0 <= i < 128,
    ensures
        after(i) == if i == 127 {
            0
        } else {
            i + 1
        },
{
}

} // verus!
