//! A model of the EEPROM at the other end of the wires, and what the driver reads from it.

use vstd::arithmetic::power2::{lemma2_to64, lemma_pow2_strictly_increases, lemma_pow2_unfold, pow2};
use vstd::prelude::*;
use crate::bits::{bit_of, lemma_next_bit, number};
use crate::defs::{
    E1000_EECD, E1000_EECD_CS, E1000_EECD_DI, E1000_EECD_DO, E1000_EECD_GNT, E1000_EECD_REQ,
    E1000_EECD_SK, EEPROM_READ_OPCODE_MICROWIRE,
};
use crate::eeprom::read::{
    AcquireEeprom, ReadEeprom, ReadPhase, ShiftInEeBits, read_eeprom, sampled, select_actions,
};
use crate::eeprom::wires::{EepromInfo, clock_out, hold, release_actions, with_di};
use crate::eeprom::words::{
    ReadMacAddr, ValidateEepromChecksum, checksum_report, read_mac_addr, validate_eeprom_checksum,
    with_word,
};
use crate::protocol::{Action, Protocol, Step, run};
use crate::resource::{flush, reg_write};

verus! {

/// The levels of the wires that the driver drives.
pub struct Wires {
    /// Chip select.
    pub cs: bool,
    /// Clock.
    pub sk: bool,
    /// Data to the EEPROM.
    pub di: bool,
    /// Request for access.
    pub req: bool,
}

/// The levels that the control register value `eecd` puts on the wires.
pub open spec fn wires(eecd: u32) -> Wires {
    Wires {
        cs: eecd & 0x02 != 0,
        sk: eecd & 0x01 != 0,
        di: eecd & 0x04 != 0,
        req: eecd & 0x40 != 0,
    }
}

/// An EEPROM on the wires.
pub struct Chip {
    pub eeprom: EepromInfo,
    /// The words that the EEPROM holds.
    pub words: Seq<u16>,
    pub wires: Wires,
    /// The bits clocked in since the EEPROM was selected.
    pub bits: Seq<bool>,
    /// The rest of the control register.
    pub rest: u32,
}

/// The low `n` bits of `data`, highest first.
pub open spec fn low_bits(data: u16, n: nat) -> Seq<bool> {
    Seq::new(n, |i: int| bit_of(data as u32, n - 1 - i))
}

impl Chip {
    /// Bits of a command: opcode and address.
    pub open spec fn command_bits(self) -> int {
        self.eeprom.opcode_bits + self.eeprom.address_bits
    }

    /// The EEPROM after the levels of the wires have become `wires`. A bit is clocked in when the
    /// clock rises while the EEPROM is selected.
    pub open spec fn driven(self, wires: Wires) -> Chip {
        let bits = if self.wires.cs {
            self.bits
        } else {
            seq![]
        };
        Chip {
            wires,
            bits: if !wires.cs {
                seq![]
            } else if wires.sk && !self.wires.sk {
                bits.push(wires.di)
            } else {
                bits
            },
            ..self
        }
    }

    /// The level that the EEPROM answers with: after a read command, each clock brings the next
    /// bit of the word addressed, highest first. Otherwise the wire is high.
    pub open spec fn answer(self) -> bool {
        let n = self.command_bits();
        let j = self.bits.len() - n;
        if 1 <= j <= 16 && number(self.bits.take(self.eeprom.opcode_bits as int)) == 6 {
            let address = number(self.bits.subrange(self.eeprom.opcode_bits as int, n));
            bit_of(self.words[address as int] as u32, 16 - j)
        } else {
            true
        }
    }

    /// What the control register reads as: the levels of the wires, access granted when it is
    /// asked for, and the answer.
    pub open spec fn register(self) -> u32 {
        let others = self.rest & !(E1000_EECD_CS | E1000_EECD_SK | E1000_EECD_DI | E1000_EECD_REQ
            | E1000_EECD_GNT | E1000_EECD_DO);
        let cs = if self.wires.cs { E1000_EECD_CS } else { 0 };
        let sk = if self.wires.sk { E1000_EECD_SK } else { 0 };
        let di = if self.wires.di { E1000_EECD_DI } else { 0 };
        let req = if self.wires.req { E1000_EECD_REQ | E1000_EECD_GNT } else { 0 };
        let dout = if self.answer() { E1000_EECD_DO } else { 0 };
        others | cs | sk | di | req | dout
    }

    /// The EEPROM after `action`.
    pub open spec fn acted(self, action: Action) -> Chip {
        match action {
            Action::Write { offset, value } => if offset == 0x10 {
                self.driven(wires(value))
            } else {
                self
            },
            _ => self,
        }
    }

    /// The EEPROM after `actions`.
    pub open spec fn after(self, actions: Seq<Action>) -> Chip
        decreases actions.len(),
    {
        if actions.len() == 0 {
            self
        } else {
            self.after(actions.drop_last()).acted(actions.last())
        }
    }
}

/// The conversation of a procedure that starts in state `p` with the EEPROM `chip`, for `n`
/// questions: the EEPROM at its end, and where the procedure stands.
pub open spec fn converse<P: Protocol<Request = u32, Reply = u32>>(p: P, chip: Chip, n: nat) -> (
    Chip,
    Step<P, P::Result>,
)
    decreases n,
{
    if n == 0 {
        (chip, Step::Wait(p))
    } else {
        let (actions, step) = p.next(chip.register());
        match step {
            Step::Wait(q) => converse(q, chip.after(actions), (n - 1) as nat),
            end => (chip.after(actions), end),
        }
    }
}

/// What a procedure hears in up to `n` questions and answers with `chip` at its wires.
pub open spec fn heard<P: Protocol<Request = u32, Reply = u32>>(p: P, chip: Chip, n: nat) -> Seq<
    u32,
>
    decreases n,
{
    if n == 0 {
        seq![]
    } else {
        let reply = chip.register();
        let (actions, step) = p.next(reply);
        match step {
            Step::Wait(q) => seq![reply] + heard(q, chip.after(actions), (n - 1) as nat),
            _ => seq![reply],
        }
    }
}

/// A procedure that hears what it would with the chip at its wires stands where it would there.
pub proof fn lemma_heard<P: Protocol<Request = u32, Reply = u32>>(p: P, chip: Chip, n: nat)
    ensures
        run(p, heard(p, chip, n)).1 == converse(p, chip, n).1,
        n > 0 ==> heard(p, chip, n).len() > 0,
        n > 0 && converse(p, chip, (n - 1) as nat).1 is Wait ==> heard(p, chip, n).drop_last()
            == heard(p, chip, (n - 1) as nat),
    decreases n,
{
    reveal_with_fuel(converse, 2);
    reveal_with_fuel(heard, 2);
    if n > 0 {
        let reply = chip.register();
        let (actions, step) = p.next(reply);
        if let Step::Wait(q) = step {
            let m = (n - 1) as nat;
            let after = chip.after(actions);
            lemma_heard(q, after, m);
            assert(heard(p, chip, n).drop_first() =~= heard(q, after, m));
            if m > 0 && converse(p, chip, m).1 is Wait {
                assert(heard(p, chip, n).drop_last() =~= seq![reply] + heard(
                    q,
                    after,
                    m,
                ).drop_last());
            }
            if m == 0 {
                assert(heard(p, chip, n).drop_last() =~= seq![]);
            }
        } else {
            assert(heard(p, chip, n).drop_last() =~= seq![]);
        }
    }
}

/// How the driver's changes to the control register change the wires.
pub proof fn lemma_wires(x: u32)
    ensures
        wires(x | E1000_EECD_SK) == (Wires { sk: true, ..wires(x) }),
        wires(x & !E1000_EECD_SK) == (Wires { sk: false, ..wires(x) }),
        wires(x | E1000_EECD_CS) == (Wires { cs: true, ..wires(x) }),
        wires(x | E1000_EECD_REQ) == (Wires { req: true, ..wires(x) }),
        wires(x & !E1000_EECD_REQ) == (Wires { req: false, ..wires(x) }),
        wires(x & !E1000_EECD_DI) == (Wires { di: false, ..wires(x) }),
        wires((x & !E1000_EECD_DI) | E1000_EECD_DI) == (Wires { di: true, ..wires(x) }),
        wires(x & !E1000_EECD_DO) == wires(x),
        wires(x & !(E1000_EECD_DO | E1000_EECD_DI)) == (Wires { di: false, ..wires(x) }),
        wires(x & !(E1000_EECD_DI | E1000_EECD_SK)) == (Wires { di: false, sk: false, ..wires(x) }),
        wires(x & !(E1000_EECD_CS | E1000_EECD_SK)) == (Wires { cs: false, sk: false, ..wires(x) }),
        wires(x & !(E1000_EECD_CS | E1000_EECD_DI)) == (Wires { cs: false, di: false, ..wires(x) }),
        sampled(x & !E1000_EECD_DI) == sampled(x),
{
    assert((x | 1) & 1 != 0 && (x | 1) & 2 == x & 2 && (x | 1) & 4 == x & 4 && (x | 1) & 0x40 == x
        & 0x40 && (x & !1) & 1 == 0 && (x & !1) & 2 == x & 2 && (x & !1) & 4 == x & 4 && (x & !1)
        & 0x40 == x & 0x40 && (x | 2) & 1 == x & 1 && (x | 2) & 2 != 0 && (x | 2) & 4 == x & 4 && (x
        | 2) & 0x40 == x & 0x40 && (x | 0x40) & 1 == x & 1 && (x | 0x40) & 2 == x & 2 && (x | 0x40)
        & 4 == x & 4 && (x | 0x40) & 0x40 != 0 && (x & !0x40) & 1 == x & 1 && (x & !0x40) & 2 == x
        & 2 && (x & !0x40) & 4 == x & 4 && (x & !0x40) & 0x40 == 0) by (bit_vector);
    assert((x & !4) & 1 == x & 1 && (x & !4) & 2 == x & 2 && (x & !4) & 4 == 0 && (x & !4) & 0x40
        == x & 0x40 && (x & !4) & 8 == x & 8 && ((x & !4) | 4) & 1 == x & 1 && ((x & !4) | 4) & 2
        == x & 2 && ((x & !4) | 4) & 4 != 0 && ((x & !4) | 4) & 0x40 == x & 0x40 && (x & !8) & 1
        == x & 1 && (x & !8) & 2 == x & 2 && (x & !8) & 4 == x & 4 && (x & !8) & 0x40 == x & 0x40
        && (x & !(8u32 | 4u32)) & 1 == x & 1 && (x & !(8u32 | 4u32)) & 2 == x & 2 && (x & !(8u32
        | 4u32)) & 4 == 0 && (x & !(8u32 | 4u32)) & 0x40 == x & 0x40) by (bit_vector);
    assert((x & !(4u32 | 1u32)) & 1 == 0 && (x & !(4u32 | 1u32)) & 2 == x & 2 && (x & !(4u32
        | 1u32)) & 4 == 0 && (x & !(4u32 | 1u32)) & 0x40 == x & 0x40 && (x & !(2u32 | 1u32)) & 1
        == 0 && (x & !(2u32 | 1u32)) & 2 == 0 && (x & !(2u32 | 1u32)) & 4 == x & 4 && (x & !(2u32
        | 1u32)) & 0x40 == x & 0x40 && (x & !(2u32 | 4u32)) & 1 == x & 1 && (x & !(2u32 | 4u32)) & 2
        == 0 && (x & !(2u32 | 4u32)) & 4 == 0 && (x & !(2u32 | 4u32)) & 0x40 == x & 0x40)
        by (bit_vector);
}

/// The control register shows the wires, the grant and the answer.
proof fn lemma_register(chip: Chip)
    ensures
        wires(chip.register()) == chip.wires,
        (chip.register() & E1000_EECD_GNT != 0) == chip.wires.req,
        sampled(chip.register()) == chip.answer(),
{
    let rest = chip.rest;
    let (cs, sk, di, req, dout) = (
        chip.wires.cs,
        chip.wires.sk,
        chip.wires.di,
        chip.wires.req,
        chip.answer(),
    );
    let x = chip.register();
    assert((x & 2 != 0) == cs && (x & 1 != 0) == sk && (x & 4 != 0) == di && (x & 0x40 != 0) == req
        && (x & 0x80 != 0) == req && (x & 8 != 0) == dout) by (bit_vector)
        requires
            x == (rest & !(2u32 | 1u32 | 4u32 | 0x40u32 | 0x80u32 | 8u32)) | (if cs {
                2u32
            } else {
                0u32
            }) | (if sk {
                1u32
            } else {
                0u32
            }) | (if di {
                4u32
            } else {
                0u32
            }) | (if req {
                0x40u32 | 0x80u32
            } else {
                0u32
            }) | (if dout {
                8u32
            } else {
                0u32
            }),
    ;
}

proof fn lemma_after_append(chip: Chip, a: Seq<Action>, b: Seq<Action>)
    ensures
        chip.after(a + b) == chip.after(a).after(b),
    decreases b.len(),
{
    if b.len() == 0 {
        assert(a + b =~= a);
    } else {
        assert((a + b).drop_last() =~= a + b.drop_last());
        lemma_after_append(chip, a, b.drop_last());
    }
}

proof fn lemma_after_hold(chip: Chip, eecd: u32, delay_usec: u16)
    ensures
        chip.after(hold(eecd, delay_usec)) == chip.driven(wires(eecd)),
        chip.after(seq![reg_write(E1000_EECD, eecd)]) == chip.driven(wires(eecd)),
        chip.after(seq![]) == chip,
{
    reveal_with_fuel(Chip::after, 4);
    let h = hold(eecd, delay_usec);
    assert(h.drop_last() =~= seq![reg_write(E1000_EECD, eecd), flush()]);
    assert(h.drop_last().drop_last() =~= seq![reg_write(E1000_EECD, eecd)]);
    assert(seq![reg_write(E1000_EECD, eecd)].drop_last() =~= seq![]);
}

/// Clocking bits out to a selected EEPROM whose clock is low puts just these bits in, in order,
/// and leaves clock and data low.
pub proof fn law_clock_out(chip: Chip, eecd: u32, delay_usec: u16, data: u16, n: nat)
    requires
        chip.wires.cs && !chip.wires.sk,
        wires(eecd).cs && !wires(eecd).sk,
        n <= 16,
    ensures
        chip.after(clock_out(eecd, delay_usec, data, n)) == (Chip {
            wires: Wires { di: false, ..wires(eecd) },
            bits: chip.bits + low_bits(data, n),
            ..chip
        }),
    decreases n,
{
    if n == 0 {
        lemma_wires(eecd);
        lemma_after_hold(chip, eecd & !E1000_EECD_DI, delay_usec);
        assert(chip.bits + low_bits(data, n) =~= chip.bits);
    } else {
        let bit = bit_of(data as u32, n - 1);
        let low = with_di(eecd, bit);
        let high = low | E1000_EECD_SK;
        let back = high & !E1000_EECD_SK;
        let rest = clock_out(back, delay_usec, data, (n - 1) as nat);
        lemma_wires(eecd);
        lemma_wires(low);
        lemma_wires(high);
        let first = chip.driven(wires(low));
        let second = first.driven(wires(high));
        let third = second.driven(wires(back));
        assert(third == Chip { wires: wires(back), bits: chip.bits.push(bit), ..chip });
        lemma_after_hold(chip, low, delay_usec);
        lemma_after_hold(first, high, delay_usec);
        lemma_after_hold(second, back, delay_usec);
        lemma_after_append(chip, hold(low, delay_usec), hold(high, delay_usec));
        lemma_after_append(
            chip,
            hold(low, delay_usec) + hold(high, delay_usec),
            hold(back, delay_usec),
        );
        lemma_after_append(
            chip,
            hold(low, delay_usec) + hold(high, delay_usec) + hold(back, delay_usec),
            rest,
        );
        law_clock_out(third, back, delay_usec, data, (n - 1) as nat);
        assert(chip.bits.push(bit) + low_bits(data, (n - 1) as nat) =~= chip.bits + low_bits(
            data,
            n,
        ));
    }
}

/// A number is spelt by its bits.
pub proof fn lemma_number(data: u16, n: nat)
    requires
        n <= 16,
        data < pow2(n),
    ensures
        number(low_bits(data, n)) == data,
    decreases n,
{
    if n == 0 {
        lemma2_to64();
    } else {
        let half = data >> 1;
        assert(half == data / 2 && (data as u32 >> 0 & 1 == 1) == (data % 2 == 1)) by (bit_vector)
            requires
                half == data >> 1,
        ;
        lemma_pow2_unfold(n);
        lemma_number(half, (n - 1) as nat);
        assert forall|k: int| 0 <= k < 16 implies #[trigger] bit_of(data as u32, k + 1) == bit_of(
            half as u32,
            k,
        ) by {
            let j = k as u32;
            assert((data as u32 >> ((j + 1) as u32)) & 1 == (half as u32 >> j) & 1) by (bit_vector)
                requires
                    half == data >> 1,
                    j < 16,
            ;
        }
        assert(low_bits(data, n).drop_last() =~= low_bits(half, (n - 1) as nat)) by {
            assert forall|i: int| 0 <= i < n - 1 implies low_bits(data, n)[i] == low_bits(
                half,
                (n - 1) as nat,
            )[i] by {
                assert(bit_of(data as u32, (n - 2 - i) + 1) == bit_of(half as u32, n - 2 - i));
            }
        }
        assert(low_bits(data, n).last() == bit_of(data as u32, 0));
    }
}

/// The EEPROM has been told to read the word at `offset` and has seen `j` clocks since.
spec fn reading(chip: Chip, offset: int, j: int) -> bool {
    let n = chip.command_bits();
    &&& chip.wires.cs
    &&& chip.bits.len() == n + j
    &&& number(chip.bits.take(chip.eeprom.opcode_bits as int)) == EEPROM_READ_OPCODE_MICROWIRE
    &&& number(chip.bits.subrange(chip.eeprom.opcode_bits as int, n)) == offset
}

/// Another clock while the EEPROM reads.
proof fn lemma_next_clock(chip: Chip, levels: Wires, offset: int, j: int)
    requires
        reading(chip, offset, j),
        j >= 0,
        levels.cs,
    ensures
        levels.sk && !chip.wires.sk ==> reading(chip.driven(levels), offset, j + 1),
        !(levels.sk && !chip.wires.sk) ==> reading(chip.driven(levels), offset, j),
        chip.driven(levels).words == chip.words,
        chip.driven(levels).eeprom == chip.eeprom,
{
    let next = chip.driven(levels);
    let n = chip.command_bits();
    let k = chip.eeprom.opcode_bits as int;
    assert(next.bits.take(k) =~= chip.bits.take(k));
    assert(next.bits.subrange(k, n) =~= chip.bits.subrange(k, n));
}

/// The bits of a word come in one by one.
proof fn lemma_shift_in(
    p: ReadEeprom,
    chip: Chip,
    offset: int,
    word: u16,
    left: u16,
    more: nat,
) -> (end: Chip)
    requires
        p.phase == ReadPhase::ShiftIn(
            ShiftInEeBits::Sample { eeprom: p.eeprom, data: word >> left, left },
        ),
        1 <= left <= 16,
        reading(chip, offset, 17 - left),
        chip.words[offset] == word,
        chip.wires.sk,
    ensures
        converse(p, chip, (left + more) as nat) == converse(
            p.at(ReadPhase::Standby { data: word }),
            end,
            more,
        ),
        end == (Chip { wires: end.wires, bits: end.bits, ..chip }),
    decreases left,
{
    let eecd = chip.register();
    let delay = p.eeprom.delay_usec;
    let low = (eecd & !E1000_EECD_DI) & !E1000_EECD_SK;
    let high = low | E1000_EECD_SK;
    lemma_register(chip);
    lemma_wires(eecd);
    lemma_wires(eecd & !E1000_EECD_DI);
    lemma_wires(low);
    let first = chip.driven(wires(low));
    lemma_after_hold(chip, low, delay);
    lemma_next_clock(chip, wires(low), offset, 17 - left);
    let bit = bit_of(word as u32, left - 1);
    assert(sampled(eecd & !E1000_EECD_DI) == bit);
    let down = (left - 1) as u16;
    lemma_next_bit(word, left);
    if left == 1 {
        assert(p.next(eecd) == (
            hold(low, delay),
            Step::<ReadEeprom, u16>::Wait(p.at(ReadPhase::Standby { data: word })),
        ));
        first
    } else {
        let second = first.driven(wires(high));
        lemma_after_append(chip, hold(low, delay), hold(high, delay));
        lemma_after_hold(first, high, delay);
        lemma_next_clock(first, wires(high), offset, 17 - left);
        let q = p.at(
            ReadPhase::ShiftIn(
                ShiftInEeBits::Sample { eeprom: p.eeprom, data: word >> down, left: down },
            ),
        );
        assert(p.next(eecd) == (
            hold(low, delay) + hold(high, delay),
            Step::<ReadEeprom, u16>::Wait(q),
        ));
        lemma_shift_in(q, second, offset, word, down, more)
    }
}

/// The EEPROM at rest.
pub open spec fn at_rest(chip: Chip) -> Chip {
    Chip { wires: Wires { cs: false, sk: false, di: false, req: false }, bits: seq![], ..chip }
}

/// Access is asked for and granted, and the EEPROM is selected.
proof fn lemma_select(chip: Chip, offset: u16, more: nat)
    requires
        !chip.wires.cs,
    ensures
        converse(read_eeprom(chip.eeprom, offset), chip, 2 + more) == converse(
            read_eeprom(chip.eeprom, offset).at(ReadPhase::Opcode),
            Chip {
                wires: Wires { cs: true, sk: false, di: false, req: true },
                bits: seq![],
                ..chip
            },
            more,
        ),
{
    let start = read_eeprom(chip.eeprom, offset);
    let r0 = chip.register();
    let c1 = chip.driven(wires(r0 | E1000_EECD_REQ));
    lemma_register(chip);
    lemma_wires(r0);
    lemma_after_hold(chip, r0 | E1000_EECD_REQ, 0);
    let r1 = c1.register();
    lemma_register(c1);
    let low = r1 & !(E1000_EECD_DI | E1000_EECD_SK);
    lemma_wires(r1);
    lemma_wires(low);
    let c2 = c1.driven(wires(low)).driven(wires(low | E1000_EECD_CS));
    assert(c1.after(select_actions(r1)) == c2) by {
        reveal_with_fuel(Chip::after, 5);
        let s = select_actions(r1);
        assert(s.drop_last() =~= seq![
            reg_write(E1000_EECD, low),
            reg_write(E1000_EECD, low | E1000_EECD_CS),
            flush(),
        ]);
        assert(s.drop_last().drop_last() =~= seq![
            reg_write(E1000_EECD, low),
            reg_write(E1000_EECD, low | E1000_EECD_CS),
        ]);
        assert(s.drop_last().drop_last().drop_last() =~= seq![reg_write(E1000_EECD, low)]);
        assert(s.drop_last().drop_last().drop_last().drop_last() =~= seq![]);
    }
    let p1 = start.at(ReadPhase::Acquire(AcquireEeprom::Grant { attempts: 0 }));
    assert(converse(p1, c1, 1 + more) == converse(start.at(ReadPhase::Opcode), c2, more));
    assert(converse(start, chip, 2 + more) == converse(p1, c1, 1 + more));
}

/// The read command is sent to the selected EEPROM, which then answers with the first bit.
proof fn lemma_command(chip: Chip, offset: u16, more: nat) -> (end: Chip)
    requires
        chip.wires == (Wires { cs: true, sk: false, di: false, req: true }),
        chip.bits == Seq::<bool>::empty(),
        chip.eeprom.wf(),
        chip.eeprom.opcode_bits >= 3,
        offset < pow2(chip.eeprom.address_bits as nat),
    ensures
        converse(read_eeprom(chip.eeprom, offset).at(ReadPhase::Opcode), chip, 3 + more)
            == converse(
            read_eeprom(chip.eeprom, offset).at(
                ReadPhase::ShiftIn(
                    ShiftInEeBits::Sample { eeprom: chip.eeprom, data: 0, left: 16 },
                ),
            ),
            end,
            more,
        ),
        reading(end, offset as int, 1),
        end.wires.sk,
        end == (Chip { wires: end.wires, bits: end.bits, ..chip }),
{
    let eeprom = chip.eeprom;
    let delay = eeprom.delay_usec;
    let opcode = EEPROM_READ_OPCODE_MICROWIRE as u16;
    let start = read_eeprom(eeprom, offset);
    let k = eeprom.opcode_bits as nat;
    let n = eeprom.address_bits as nat;
    let r2 = chip.register();
    lemma_register(chip);
    lemma_wires(r2);
    law_clock_out(chip, r2 & !E1000_EECD_DO, delay, opcode, k);
    let c3 = chip.after(clock_out(r2 & !E1000_EECD_DO, delay, opcode, k));
    let r3 = c3.register();
    lemma_register(c3);
    lemma_wires(r3);
    law_clock_out(c3, r3 & !E1000_EECD_DO, delay, offset, n);
    let c4 = c3.after(clock_out(r3 & !E1000_EECD_DO, delay, offset, n));
    assert(c4.bits =~= low_bits(opcode, k) + low_bits(offset, n));
    assert(c4.bits.take(k as int) =~= low_bits(opcode, k));
    assert(c4.bits.subrange(k as int, (k + n) as int) =~= low_bits(offset, n));
    assert(opcode < pow2(k)) by {
        lemma2_to64();
        if k > 3 {
            lemma_pow2_strictly_increases(3, k);
        }
    }
    lemma_number(opcode, k);
    lemma_number(offset, n);
    let r4 = c4.register();
    lemma_register(c4);
    lemma_wires(r4);
    let quiet = r4 & !(E1000_EECD_DO | E1000_EECD_DI);
    lemma_wires(quiet);
    let c5 = c4.driven(wires(quiet | E1000_EECD_SK));
    lemma_after_hold(c4, quiet | E1000_EECD_SK, delay);
    lemma_next_clock(c4, wires(quiet | E1000_EECD_SK), offset as int, 0);
    let p2 = start.at(ReadPhase::Opcode);
    let p3 = start.at(ReadPhase::Address);
    let p4 = start.at(ReadPhase::ShiftIn(ShiftInEeBits::Start { eeprom, count: 16 }));
    let p5 = start.at(ReadPhase::ShiftIn(ShiftInEeBits::Sample { eeprom, data: 0, left: 16 }));
    assert(converse(p4, c4, 1 + more) == converse(p5, c5, more));
    assert(converse(p3, c3, 2 + more) == converse(p4, c4, 1 + more));
    assert(converse(p2, chip, 3 + more) == converse(p3, c3, 2 + more));
    c5
}

/// The EEPROM is put on standby and released.
proof fn lemma_release(p: ReadEeprom, chip: Chip, data: u16)
    requires
        p.phase == (ReadPhase::Standby { data }),
    ensures
        converse(p, chip, 2) == (at_rest(chip), Step::<ReadEeprom, u16>::Done(data)),
        converse(p, chip, 1).1 is Wait,
{
    let delay = p.eeprom.delay_usec;
    let q = p.at(ReadPhase::Release { data });
    let c7 = chip.after(p.next(chip.register()).0);
    lemma_same_words(chip, p.next(chip.register()).0);
    let r7 = c7.register();
    let idle = r7 & !(E1000_EECD_CS | E1000_EECD_DI);
    let high = idle | E1000_EECD_SK;
    let back = high & !E1000_EECD_SK;
    let done = back & !E1000_EECD_REQ;
    lemma_wires(r7);
    lemma_wires(idle);
    lemma_wires(high);
    lemma_wires(back);
    let a1 = seq![reg_write(E1000_EECD, idle)];
    let a2 = hold(high, delay);
    let a3 = hold(back, delay);
    let a4 = seq![reg_write(E1000_EECD, done)];
    lemma_after_append(c7, a1, a2);
    lemma_after_append(c7, a1 + a2, a3);
    lemma_after_append(c7, a1 + a2 + a3, a4);
    let d1 = c7.driven(wires(idle));
    let d2 = d1.driven(wires(high));
    let d3 = d2.driven(wires(back));
    lemma_after_hold(c7, idle, delay);
    lemma_after_hold(d1, high, delay);
    lemma_after_hold(d2, back, delay);
    lemma_after_hold(d3, done, delay);
    let end = d3.driven(wires(done));
    assert(c7.after(release_actions(r7, delay)) == end);
    assert(end == at_rest(chip));
    assert(converse(q, c7, 1) == (end, Step::<ReadEeprom, u16>::Done(data)));
    assert(converse(p, chip, 2) == converse(q, c7, 1));
    assert(converse(q, c7, 0).1 is Wait);
    assert(converse(p, chip, 1) == converse(q, c7, 0));
}

/// The driver's questions while it reads a word from an EEPROM that grants access at once.
pub open spec fn word_questions() -> nat {
    23
}

/// Reading a word gives back the word that the EEPROM holds there, and leaves the EEPROM
/// unselected, unasked for and unchanged. The reading ends with the last question, not before.
pub proof fn law_read_eeprom(chip: Chip, offset: u16)
    requires
        !chip.wires.cs,
        chip.eeprom.wf(),
        chip.eeprom.opcode_bits >= 3,
        offset < pow2(chip.eeprom.address_bits as nat),
    ensures
        converse(read_eeprom(chip.eeprom, offset), chip, word_questions()) == (
            at_rest(chip),
            Step::<ReadEeprom, u16>::Done(chip.words[offset as int]),
        ),
        converse(read_eeprom(chip.eeprom, offset), chip, (word_questions() - 1) as nat).1 is Wait,
{
    let word = chip.words[offset as int];
    let start = read_eeprom(chip.eeprom, offset);
    let selected = Chip {
        wires: Wires { cs: true, sk: false, di: false, req: true },
        bits: seq![],
        ..chip
    };
    let p = start.at(
        ReadPhase::ShiftIn(ShiftInEeBits::Sample { eeprom: chip.eeprom, data: 0, left: 16 }),
    );
    lemma_next_bit(word, 16);
    lemma_select(chip, offset, 21);
    let c = lemma_command(selected, offset, 18);
    let d = lemma_shift_in(p, c, offset as int, word, 16, 2);
    lemma_release(start.at(ReadPhase::Standby { data: word }), d, word);
    lemma_select(chip, offset, 20);
    let c = lemma_command(selected, offset, 17);
    let d = lemma_shift_in(p, c, offset as int, word, 16, 1);
    lemma_release(start.at(ReadPhase::Standby { data: word }), d, word);
}

/// No action changes what the EEPROM holds.
proof fn lemma_same_words(chip: Chip, actions: Seq<Action>)
    ensures
        chip.after(actions) == (Chip {
            wires: chip.after(actions).wires,
            bits: chip.after(actions).bits,
            ..chip
        }),
    decreases actions.len(),
{
    if actions.len() > 0 {
        lemma_same_words(chip, actions.drop_last());
    }
}

/// A conversation goes on from where its first part left it, also inside a larger procedure that
/// does nothing of its own meanwhile.
proof fn lemma_converse_inside<
    A: Protocol<Request = u32, Reply = u32>,
    B: Protocol<Request = u32, Reply = u32>,
>(a: A, f: spec_fn(A) -> B, chip: Chip, n: nat, more: nat)
    requires
        forall|x: A, r: u32|
            (#[trigger] x.next(r)).1 matches Step::Wait(y) ==> f(x).next(r) == (
                x.next(r).0,
                Step::<B, B::Result>::Wait(f(y)),
            ),
    ensures
        converse(a, chip, n).1 matches Step::Wait(b) ==> converse(f(a), chip, n + more) == converse(
            f(b),
            converse(a, chip, n).0,
            more,
        ),
    decreases n,
{
    if n > 0 {
        let (actions, step) = a.next(chip.register());
        if let Step::Wait(q) = step {
            lemma_converse_inside(q, f, chip.after(actions), (n - 1) as nat, more);
        }
    }
}

/// A procedure that ends with its last question ends a larger procedure's part there.
proof fn lemma_converse_end<A: Protocol<Request = u32, Reply = u32>>(a: A, chip: Chip, n: nat) -> (
    (before, b): (Chip, A)
)
    requires
        converse(a, chip, n).1 is Wait,
    ensures
        converse(a, chip, n) == (before, Step::<A, A::Result>::Wait(b)),
        !(b.next(before.register()).1 is Wait) ==> converse(a, chip, n + 1) == (
            before.after(b.next(before.register()).0),
            b.next(before.register()).1,
        ),
        b.next(before.register()).1 is Wait ==> converse(a, chip, n + 1).1 is Wait,
{
    lemma_converse_inside(a, |x: A| x, chip, n, 1);
    let before = converse(a, chip, n).0;
    let b = converse(a, chip, n).1->Wait_0;
    assert(converse(a, chip, n + 1) == converse(b, before, 1));
    reveal_with_fuel(converse, 2);
    (before, b)
}

/// The address that the first three words hold, each with its low byte first.
pub open spec fn address_in(words: Seq<u16>) -> Seq<u8> {
    Seq::new(
        6,
        |i: int|
            if i % 2 == 0 {
                (words[i / 2] % 0x100) as u8
            } else {
                (words[i / 2] / 0x100) as u8
            },
    )
}

/// One word of the address is read.
proof fn lemma_address_word(m: ReadMacAddr, chip: Chip, more: nat)
    requires
        m.wf(),
        m.eeprom == chip.eeprom,
        m.read == read_eeprom(chip.eeprom, (m.i / 2) as u16),
        !chip.wires.cs,
        chip.eeprom.opcode_bits >= 3,
        chip.eeprom.address_bits >= 2,
    ensures
        ({
            let mac_addr = with_word(m.mac_addr, m.i as int, chip.words[m.i as int / 2]);
            let n = word_questions() + more;
            if m.i < 4 {
                converse(m, chip, n) == converse(
                    ReadMacAddr {
                        eeprom: m.eeprom,
                        i: (m.i + 2) as u32,
                        mac_addr,
                        read: read_eeprom(m.eeprom, ((m.i + 2) / 2) as u16),
                    },
                    at_rest(chip),
                    more,
                )
            } else {
                converse(m, chip, n) == (
                    at_rest(chip),
                    Step::<ReadMacAddr, [u8; 6]>::Done(mac_addr),
                )
            }
        }),
{
    let offset = (m.i / 2) as u16;
    assert(offset < pow2(chip.eeprom.address_bits as nat)) by {
        lemma2_to64();
        if chip.eeprom.address_bits > 2 {
            lemma_pow2_strictly_increases(2, chip.eeprom.address_bits as nat);
        }
    }
    law_read_eeprom(chip, offset);
    let last = (word_questions() - 1) as nat;
    let (before, b) = lemma_converse_end(m.read, chip, last);
    let f = |read: ReadEeprom| ReadMacAddr { read, ..m };
    assert(f(m.read) == m);
    lemma_converse_inside(m.read, f, chip, last, 1 + more);
    assert(converse(m, chip, (last + (1 + more)) as nat) == converse(f(b), before, 1 + more));
    let (actions, step) = f(b).next(before.register());
    assert(before.after(actions) == at_rest(chip));
}

/// Up to its last question, the reading of a word keeps the reading of the address waiting.
proof fn lemma_last_address_word(m: ReadMacAddr, chip: Chip)
    requires
        m.i == 4,
        m.eeprom == chip.eeprom,
        m.read == read_eeprom(chip.eeprom, 2),
        !chip.wires.cs,
        chip.eeprom.wf(),
        chip.eeprom.opcode_bits >= 3,
        chip.eeprom.address_bits >= 2,
    ensures
        converse(m, chip, (word_questions() - 1) as nat).1 is Wait,
{
    assert(2 < pow2(chip.eeprom.address_bits as nat)) by {
        lemma2_to64();
        if chip.eeprom.address_bits > 2 {
            lemma_pow2_strictly_increases(2, chip.eeprom.address_bits as nat);
        }
    }
    law_read_eeprom(chip, 2);
    let last = (word_questions() - 1) as nat;
    let (before, b) = lemma_converse_end(m.read, chip, last);
    let f = |read: ReadEeprom| ReadMacAddr { read, ..m };
    assert(f(m.read) == m);
    lemma_converse_inside(m.read, f, chip, last, 0);
}

/// The address read is the one that the EEPROM holds.
pub proof fn law_read_mac_addr(chip: Chip)
    requires
        !chip.wires.cs,
        chip.eeprom.wf(),
        chip.eeprom.opcode_bits >= 3,
        chip.eeprom.address_bits >= 2,
        chip.eeprom.word_size >= 3,
    ensures
        converse(read_mac_addr(chip.eeprom), chip, 3 * word_questions()).0 == at_rest(chip),
        converse(read_mac_addr(chip.eeprom), chip, 3 * word_questions()).1 matches Step::Done(
            mac_addr,
        ) && mac_addr@ == address_in(chip.words) && mac_addr[0] + 0x100 * mac_addr[1]
            == chip.words[0] && mac_addr[2] + 0x100 * mac_addr[3] == chip.words[1] && mac_addr[4]
            + 0x100 * mac_addr[5] == chip.words[2],
        converse(read_mac_addr(chip.eeprom), chip, (3 * word_questions() - 1) as nat).1 is Wait,
{
    let n = word_questions();
    let eeprom = chip.eeprom;
    let m0 = read_mac_addr(eeprom);
    let a1 = with_word(m0.mac_addr, 0, chip.words[0]);
    let m1 = ReadMacAddr { eeprom, i: 2, mac_addr: a1, read: read_eeprom(eeprom, 1) };
    let a2 = with_word(a1, 2, chip.words[1]);
    let m2 = ReadMacAddr { eeprom, i: 4, mac_addr: a2, read: read_eeprom(eeprom, 2) };
    let a3 = with_word(a2, 4, chip.words[2]);
    lemma_address_word(m0, chip, 2 * n);
    lemma_address_word(m1, at_rest(chip), n);
    lemma_address_word(m2, at_rest(chip), 0);
    lemma_address_word(m0, chip, (2 * n - 1) as nat);
    lemma_address_word(m1, at_rest(chip), (n - 1) as nat);
    lemma_last_address_word(m2, at_rest(chip));
    assert forall|w: u16| #[trigger] (w & 0x00ff) as u8 == (w % 0x100) as u8 && (w >> 8) as u8 == (w
        / 0x100) as u8 by {
        assert((w & 0x00ff) as u8 == (w % 0x100) as u8 && (w >> 8) as u8 == (w / 0x100) as u8)
            by (bit_vector);
    }
    let (w0, w1, w2) = (chip.words[0], chip.words[1], chip.words[2]);
    assert((w0 & 0x00ff) as u8 == (w0 % 0x100) as u8);
    assert((w1 & 0x00ff) as u8 == (w1 % 0x100) as u8);
    assert((w2 & 0x00ff) as u8 == (w2 % 0x100) as u8);
    assert(a3@ =~= address_in(chip.words));
    assert(forall|i: int| 0 <= i < 6 ==> #[trigger] a3@[i] == address_in(chip.words)[i]);
}

/// The sum of the first `n` words.
pub open spec fn sum_of(words: Seq<u16>, n: nat) -> nat
    decreases n,
{
    if n == 0 {
        0
    } else {
        sum_of(words, (n - 1) as nat) + words[n - 1] as nat
    }
}

/// A report does not touch the EEPROM.
proof fn lemma_report_unseen(chip: Chip, checksum: u16)
    ensures
        chip.after(checksum_report(checksum)) == chip,
{
    reveal_with_fuel(Chip::after, 2);
    let report = checksum_report(checksum);
    if report.len() > 0 {
        assert(report.drop_last() =~= seq![]);
    }
}

/// The words from `v.i` on are added up.
proof fn lemma_add_words(v: ValidateEepromChecksum, chip: Chip) -> (end: (
    Chip,
    ValidateEepromChecksum,
))
    requires
        v.wf(),
        v.eeprom == chip.eeprom,
        v.read == read_eeprom(chip.eeprom, v.i as u16),
        v.checksum == sum_of(chip.words, v.i as nat) % 0x1_0000,
        !chip.wires.cs,
        chip.eeprom.opcode_bits >= 3,
        chip.eeprom.address_bits >= 6,
    ensures
        converse(v, chip, ((64 - v.i) * word_questions() - 1) as nat) == (
            end.0,
            Step::<ValidateEepromChecksum, ()>::Wait(end.1),
        ),
        end.1.read.next(end.0.register()).1 is Done,
        end.0.after(end.1.next(end.0.register()).0) == at_rest(chip),
        end.1.next(end.0.register()) == (
            end.1.read.next(end.0.register()).0 + checksum_report(
                (sum_of(chip.words, 64) % 0x1_0000) as u16,
            ),
            Step::<ValidateEepromChecksum, ()>::Done(()),
        ),
    decreases 64 - v.i,
{
    let offset = v.i as u16;
    assert(offset < pow2(chip.eeprom.address_bits as nat)) by {
        lemma2_to64();
        if chip.eeprom.address_bits > 6 {
            lemma_pow2_strictly_increases(6, chip.eeprom.address_bits as nat);
        }
    }
    law_read_eeprom(chip, offset);
    let last = (word_questions() - 1) as nat;
    let (before, b) = lemma_converse_end(v.read, chip, last);
    let f = |read: ReadEeprom| ValidateEepromChecksum { read, ..v };
    assert(f(v.read) == v);
    let word = chip.words[v.i as int];
    let checksum = ((v.checksum + word) % 0x1_0000) as u16;
    assert(sum_of(chip.words, (v.i + 1) as nat) == sum_of(chip.words, v.i as nat) + word);
    assert(checksum == sum_of(chip.words, (v.i + 1) as nat) % 0x1_0000) by {
        let s = sum_of(chip.words, v.i as nat);
        assert((s % 0x1_0000 + word) % 0x1_0000 == (s + word) % 0x1_0000);
    }
    if v.i == 63 {
        lemma_converse_inside(v.read, f, chip, last, 0);
        lemma_report_unseen(before.after(b.next(before.register()).0), checksum);
        lemma_after_append(before, b.next(before.register()).0, checksum_report(checksum));
        (before, f(b))
    } else {
        let w = ValidateEepromChecksum {
            eeprom: v.eeprom,
            i: (v.i + 1) as u32,
            checksum,
            read: read_eeprom(v.eeprom, (v.i + 1) as u16),
        };
        let rest = ((64 - w.i) * word_questions() - 1) as nat;
        lemma_converse_inside(v.read, f, chip, last, 1 + rest);
        assert(last + (1 + rest) == (64 - v.i) * word_questions() - 1);
        assert(converse(f(b), before, 1 + rest) == converse(w, at_rest(chip), rest));
        lemma_add_words(w, at_rest(chip))
    }
}

/// Checking the sum of the EEPROM's words takes all of its first 64 words, and ends with a report
/// just when they do not add up to the sum expected.
pub proof fn law_validate_eeprom_checksum(chip: Chip)
    requires
        !chip.wires.cs,
        chip.eeprom.wf(),
        chip.eeprom.opcode_bits >= 3,
        chip.eeprom.address_bits >= 6,
        chip.eeprom.word_size >= 64,
    ensures
        ({
            let start = validate_eeprom_checksum(chip.eeprom);
            let (end, step) = converse(start, chip, (64 * word_questions() - 1) as nat);
            let reply = end.register();
            &&& converse(start, chip, 64 * word_questions()) == (
                at_rest(chip),
                Step::<ValidateEepromChecksum, ()>::Done(()),
            )
            &&& step matches Step::Wait(last)
            &&& last.next(reply).1 == Step::<ValidateEepromChecksum, ()>::Done(())
            &&& last.next(reply).0 == last.read.next(reply).0 + if sum_of(chip.words, 64) % 0x1_0000
                == 0xBABA {
                seq![]
            } else {
                seq![
                    Action::ChecksumMismatch {
                        checksum: (sum_of(chip.words, 64) % 0x1_0000) as u16,
                        expected: 0xBABA,
                    },
                ]
            }
        }),
{
    let start = validate_eeprom_checksum(chip.eeprom);
    let (end, last) = lemma_add_words(start, chip);
    let n = (64 * word_questions() - 1) as nat;
    let (before, b) = lemma_converse_end(start, chip, n);
    assert(n + 1 == 64 * word_questions());
}

} // verus!
