//! The wires to the EEPROM: chip select, clock and data, each a bit of one register.

use vstd::prelude::*;
use crate::bits::{bit_of, lemma_mask, lemma_mask_down};
use crate::defs::{
    E1000_EECD, E1000_EECD_CS, E1000_EECD_DI, E1000_EECD_DO, E1000_EECD_REQ, E1000_EECD_SIZE,
    E1000_EECD_SK,
};
use crate::protocol::Action;
use crate::resource::{Resource, flush, reg_write};
use crate::E1000;

verus! {

/// The shape of the EEPROM.
#[derive(Clone, Copy, PartialEq, Eq, Debug)]
pub struct EepromInfo {
    /// Size in words.
    pub word_size: u16,
    /// Bits of an opcode.
    pub opcode_bits: u16,
    /// Bits of a word's address.
    pub address_bits: u16,
    /// How long each level of a wire is held.
    pub delay_usec: u16,
}

impl EepromInfo {
    /// Opcodes and addresses have at least one bit and fit in sixteen.
    pub open spec fn wf(self) -> bool {
        1 <= self.opcode_bits <= 16 && 1 <= self.address_bits <= 16
    }
}

/// The shape of the EEPROM that the control register `eecd` tells of.
pub open spec fn eeprom_params(eecd: u32) -> EepromInfo {
    if eecd & E1000_EECD_SIZE != 0 {
        EepromInfo { word_size: 256, opcode_bits: 3, address_bits: 8, delay_usec: 50 }
    } else {
        EepromInfo { word_size: 64, opcode_bits: 3, address_bits: 6, delay_usec: 50 }
    }
}

/// Put the levels `eecd` on the wires and hold them.
pub open spec fn hold(eecd: u32, delay_usec: u16) -> Seq<Action> {
    seq![reg_write(E1000_EECD, eecd), flush(), Action::Udelay(delay_usec as u64)]
}

/// `eecd` with the data wire to the EEPROM at the level `bit`.
pub open spec fn with_di(eecd: u32, bit: bool) -> u32 {
    if bit {
        (eecd & !E1000_EECD_DI) | E1000_EECD_DI
    } else {
        eecd & !E1000_EECD_DI
    }
}

/// Clock the low `n` bits of `data` out, highest first, from the levels `eecd`, then let the data
/// wire fall.
pub open spec fn clock_out(eecd: u32, delay_usec: u16, data: u16, n: nat) -> Seq<Action>
    decreases n,
{
    if n == 0 {
        seq![reg_write(E1000_EECD, eecd & !E1000_EECD_DI)]
    } else {
        let low = with_di(eecd, bit_of(data as u32, n - 1));
        let high = low | E1000_EECD_SK;
        hold(low, delay_usec) + hold(high, delay_usec) + hold(high & !E1000_EECD_SK, delay_usec)
            + clock_out(high & !E1000_EECD_SK, delay_usec, data, (n - 1) as nat)
    }
}

/// Deselect the EEPROM and select it again, with a clock pulse in between.
pub open spec fn standby_actions(eecd: u32, delay_usec: u16) -> Seq<Action> {
    let idle = eecd & !(E1000_EECD_CS | E1000_EECD_SK);
    let high = idle | E1000_EECD_SK;
    let selected = high | E1000_EECD_CS;
    hold(idle, delay_usec) + hold(high, delay_usec) + hold(selected, delay_usec) + hold(
        selected & !E1000_EECD_SK,
        delay_usec,
    )
}

/// Deselect the EEPROM, pulse the clock once and give up the request for access.
pub open spec fn release_actions(eecd: u32, delay_usec: u16) -> Seq<Action> {
    let idle = eecd & !(E1000_EECD_CS | E1000_EECD_DI);
    let high = idle | E1000_EECD_SK;
    let low = high & !E1000_EECD_SK;
    seq![reg_write(E1000_EECD, idle)] + hold(high, delay_usec) + hold(low, delay_usec) + seq![
        reg_write(E1000_EECD, low & !E1000_EECD_REQ),
    ]
}

/// A mask of one bit is the same among sixteen bits as among thirty-two.
proof fn lemma_mask_u16(mask: u16, k: u16)
    requires
        k < 16,
        mask == 1u16 << k,
    ensures
        mask as u32 == 1u32 << (k as u32),
        mask != 0,
        (mask >> 1) as u32 == (mask as u32) >> 1,
        k > 0 ==> mask >> 1 == 1u16 << ((k - 1) as u16),
        k == 0 ==> mask >> 1 == 0,
        forall|data: u16| #[trigger] (data & mask) as u32 == (data as u32) & (mask as u32),
{
    assert(mask as u32 == 1u32 << (k as u32) && mask != 0 && (mask >> 1) as u32 == (mask as u32)
        >> 1 && (k > 0 ==> mask >> 1 == 1u16 << ((k - 1) as u16)) && (k == 0 ==> mask >> 1 == 0))
        by (bit_vector)
        requires
            k < 16,
            mask == 1u16 << k,
    ;
    assert forall|data: u16| #[trigger]
        (data & mask) as u32 == (data as u32) & (mask as u32) by {
        assert((data & mask) as u32 == (data as u32) & (mask as u32)) by (bit_vector);
    }
}

impl E1000 {
    /// The shape of the EEPROM, from the control register `eecd`.
    pub fn init_eeprom_params(eecd: u32) -> (eeprom: EepromInfo)
        ensures
            eeprom == eeprom_params(eecd),
            eeprom.wf(),
    {
        if eecd & E1000_EECD_SIZE > 0 {
            EepromInfo { word_size: 256, address_bits: 8, delay_usec: 50, opcode_bits: 3 }
        } else {
            EepromInfo { word_size: 64, address_bits: 6, delay_usec: 50, opcode_bits: 3 }
        }
    }

    /// Raises the clock input of the EEPROM and holds it.
    pub fn raise_ee_clk(re: &mut Resource, eeprom: &EepromInfo, eecd: &mut u32)
        ensures
            *final(eecd) == *old(eecd) | E1000_EECD_SK,
            final(re)@ == old(re)@ + hold(*final(eecd), eeprom.delay_usec),
    {
        *eecd = *eecd | E1000_EECD_SK;
        re.ew32(E1000_EECD, *eecd);
        re.write_flush();
        re.push(Action::Udelay(eeprom.delay_usec as u64));
    }

    /// Lowers the clock input of the EEPROM and holds it.
    pub fn lower_ee_clk(re: &mut Resource, eeprom: &EepromInfo, eecd: &mut u32)
        ensures
            *final(eecd) == *old(eecd) & !E1000_EECD_SK,
            final(re)@ == old(re)@ + hold(*final(eecd), eeprom.delay_usec),
    {
        *eecd = *eecd & !E1000_EECD_SK;
        re.ew32(E1000_EECD, *eecd);
        re.write_flush();
        re.push(Action::Udelay(eeprom.delay_usec as u64));
    }

    /// Shifts the low `count` bits of `data` out to the EEPROM, highest first. `eecd` is what the
    /// control register held.
    pub fn shift_out_ee_bits(
        re: &mut Resource,
        eeprom: &EepromInfo,
        eecd: u32,
        data: u16,
        count: u16,
    )
        requires
            1 <= count <= 16,
        ensures
            final(re)@ == old(re)@ + clock_out(
                eecd & !E1000_EECD_DO,
                eeprom.delay_usec,
                data,
                count as nat,
            ),
    {
        let mut mask: u16 = 0x01u16 << (count - 1);
        let mut eecd: u32 = eecd & !E1000_EECD_DO;
        let ghost first = eecd;
        let mut left: u16 = count;
        let ghost start = re@;
        let ghost delay = eeprom.delay_usec;
        proof {
            lemma_mask_u16(mask, (count - 1) as u16);
        }
        while mask != 0
            invariant
                left <= 16,
                left == 0 ==> mask == 0,
                left > 0 ==> mask == 1u16 << ((left - 1) as u16),
                delay == eeprom.delay_usec,
                start + clock_out(first, delay, data, count as nat) == re@ + clock_out(
                    eecd,
                    delay,
                    data,
                    left as nat,
                ),
            decreases left,
        {
            let ghost before = re@;
            let ghost old_eecd = eecd;
            proof {
                lemma_mask_u16(mask, (left - 1) as u16);
                lemma_mask(data as u32, mask as u32, (left - 1) as u32);
                lemma_mask_down(mask as u32, (left - 1) as u32);
            }
            eecd = eecd & !E1000_EECD_DI;
            if data & mask > 0 {
                eecd = eecd | E1000_EECD_DI;
            }
            let ghost low = eecd;
            re.ew32(E1000_EECD, eecd);
            re.write_flush();
            re.push(Action::Udelay(eeprom.delay_usec as u64));
            assert(re@ =~= before + hold(low, delay));
            E1000::raise_ee_clk(re, eeprom, &mut eecd);
            E1000::lower_ee_clk(re, eeprom, &mut eecd);
            mask = mask >> 1;
            left = left - 1;
            proof {
                let rest = clock_out(eecd, delay, data, left as nat);
                let high = low | E1000_EECD_SK;
                assert(low == with_di(old_eecd, bit_of(data as u32, left as int)));
                assert(before + clock_out(old_eecd, delay, data, (left + 1) as nat) =~= re@ + rest);
            }
        }
        assert(left == 0) by {
            if left > 0 {
                lemma_mask_u16(mask, (left - 1) as u16);
            }
        }
        eecd = eecd & !E1000_EECD_DI;
        re.ew32(E1000_EECD, eecd);
        assert(re@ =~= start + clock_out(first, delay, data, count as nat));
    }

    /// Deselects and reselects the EEPROM. `eecd` is what the control register held.
    pub fn standby_eeprom(re: &mut Resource, eeprom: &EepromInfo, eecd: u32)
        ensures
            final(re)@ == old(re)@ + standby_actions(eecd, eeprom.delay_usec),
    {
        let mut eecd: u32 = eecd;
        eecd = eecd & !(E1000_EECD_CS | E1000_EECD_SK);
        re.ew32(E1000_EECD, eecd);
        re.write_flush();
        re.push(Action::Udelay(eeprom.delay_usec as u64));
        // Clock high.
        eecd = eecd | E1000_EECD_SK;
        re.ew32(E1000_EECD, eecd);
        re.write_flush();
        re.push(Action::Udelay(eeprom.delay_usec as u64));
        // Select the EEPROM.
        eecd = eecd | E1000_EECD_CS;
        re.ew32(E1000_EECD, eecd);
        re.write_flush();
        re.push(Action::Udelay(eeprom.delay_usec as u64));
        // Clock low.
        eecd = eecd & !E1000_EECD_SK;
        re.ew32(E1000_EECD, eecd);
        re.write_flush();
        re.push(Action::Udelay(eeprom.delay_usec as u64));
    }

    /// Gives the EEPROM back. `eecd` is what the control register held.
    pub fn release_eeprom(re: &mut Resource, eeprom: &EepromInfo, eecd: u32)
        ensures
            final(re)@ == old(re)@ + release_actions(eecd, eeprom.delay_usec),
    {
        let mut eecd: u32 = eecd;
        eecd = eecd & !(E1000_EECD_CS | E1000_EECD_DI);
        re.ew32(E1000_EECD, eecd);
        // Rising edge of clock.
        eecd = eecd | E1000_EECD_SK;
        re.ew32(E1000_EECD, eecd);
        re.write_flush();
        re.push(Action::Udelay(eeprom.delay_usec as u64));
        // Falling edge of clock.
        eecd = eecd & !E1000_EECD_SK;
        re.ew32(E1000_EECD, eecd);
        re.write_flush();
        re.push(Action::Udelay(eeprom.delay_usec as u64));
        eecd = eecd & !E1000_EECD_REQ;
        re.ew32(E1000_EECD, eecd);
    }
}

/// The size bit alone tells the shape: 256 words of eight address bits when it is set, 64 words of
/// six otherwise. Opcodes have three bits and levels are held for 50 microseconds either way.
pub proof fn law_eeprom_shape(eecd: u32)
    ensures
        eecd & 0x200 != 0 ==> eeprom_params(eecd).word_size == 256 && eeprom_params(
            eecd,
        ).address_bits == 8,
        eecd & 0x200 == 0 ==> eeprom_params(eecd).word_size == 64 && eeprom_params(
            eecd,
        ).address_bits == 6,
        eeprom_params(eecd).opcode_bits == 3,
        eeprom_params(eecd).delay_usec == 50,
{
}

} // verus!
