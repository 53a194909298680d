# e1000

The logic of a driver for the Intel e1000 network adapter (82540EM), verified with Verus, and a
Linux kernel module around it.

The library touches no hardware. Each driver procedure (taking a device over, bringing it up,
sending, polling, reading the EEPROM or the PHY) is a value. It queues actions in a `Resource` and
asks one question at a time: a register, a descriptor, a service of the kernel. Whoever drives it
performs the actions, answers the question and hands the answer to `step`, which says whether the
procedure waits for another answer, has ended, or has met a fault that the driver cannot recover
from.

What a procedure does is stated once, as an implementation of the ghost trait `Protocol`: what it
asks in each state, and what each answer leads to. The executable `step` is proved to do just that,
and the laws about whole conversations are proved of it.

| module | subject |
| --- | --- |
| `protocol`, `resource` | actions, questions, conversations, the queue of actions |
| `defs`, `bits` | registers and their bits, words on a serial wire |
| `eeprom` | the wires, reading words, address and checksum, a model of the EEPROM, laws |
| `phy` | the PHY, over its management wire and through a register |
| `ring`, `queue` | descriptor rings, and what holds of them as queues |
| `transmit`, `receive`, `poll` | sending, receiving, one round of polling |
| `filter`, `control`, `reset` | address filters, both units, interrupts, resetting |
| `open`, `probe` | bringing a device up, taking a device over |
| `interrupts` | when the adapter may interrupt: after rings and handler |

`tests/` runs the library on concrete values. `app/` is the kernel module: the network device
operations, the interrupt handler, and the loops that perform actions and answer questions. It
needs the `kernel` crate of a kernel tree with PCI, DMA and network device support for Rust.
