//! What holds of the EEPROM procedures whatever the device answers.

use vstd::arithmetic::power2::lemma2_to64;
use vstd::prelude::*;
use crate::bits::{
    bit_of, lemma_number_bound, lemma_set_clear, lemma_shifted, lemma_within, number, shifted,
};
use crate::defs::{
    E1000_EECD, E1000_EECD_CS, E1000_EECD_DI, E1000_EECD_DO, E1000_EECD_GNT, E1000_EECD_REQ,
    E1000_EECD_SK, E1000_EEPROM_GRANT_ATTEMPTS, EEPROM_READ_OPCODE_MICROWIRE,
};
use crate::eeprom::chip::{Wires, lemma_wires, wires};
use crate::eeprom::read::{
    AcquireEeprom, ReadEeprom, ReadPhase, ShiftInEeBits, read_eeprom, sampled, select_actions,
};
use crate::eeprom::wires::{
    EepromInfo, clock_out, hold, release_actions, standby_actions, with_di,
};
use crate::protocol::{
    Action, Fault, Protocol, Step, lemma_run_append, lemma_run_ends, lemma_run_inside,
    lemma_run_one, run,
};
use crate::resource::reg_write;

verus! {

/// The bits that the EEPROM answered with.
pub open spec fn answers(samples: Seq<u32>) -> Seq<bool> {
    Seq::new(samples.len(), |i: int| samples[i] & 0x08 != 0)
}

/// None of the answers grants access.
pub open spec fn refused(polls: Seq<u32>) -> bool {
    forall|i: int| 0 <= i < polls.len() ==> (#[trigger] polls[i]) & E1000_EECD_GNT == 0
}

/// The sampled bits are added to those before them.
proof fn lemma_samples(eeprom: EepromInfo, prior: Seq<bool>, data: u16, samples: Seq<u32>)
    requires
        1 <= samples.len() <= u16::MAX,
        data == number(prior) % 0x1_0000,
    ensures
        run(
            ShiftInEeBits::Sample { eeprom, data, left: samples.len() as u16 },
            samples,
        ).1 == Step::<ShiftInEeBits, u16>::Done(
            (number(prior + answers(samples)) % 0x1_0000) as u16,
        ),
        samples.len() > 1 ==> run(
            ShiftInEeBits::Sample { eeprom, data, left: samples.len() as u16 },
            samples.drop_last(),
        ).1 is Wait,
    decreases samples.len(),
{
    let p = ShiftInEeBits::Sample { eeprom, data, left: samples.len() as u16 };
    let reply = samples[0];
    assert((reply & !E1000_EECD_DI) & E1000_EECD_DO == reply & E1000_EECD_DO) by (bit_vector);
    let bit = sampled(reply);
    lemma_shifted(data, prior, bit);
    let rest = samples.drop_first();
    if samples.len() == 1 {
        assert(prior + answers(samples) =~= prior.push(bit));
    } else {
        lemma_samples(eeprom, prior.push(bit), shifted(data, bit), rest);
        assert(prior.push(bit) + answers(rest) =~= prior + answers(samples));
        assert(samples.drop_last().drop_first() =~= rest.drop_last());
        if rest.len() == 1 {
            assert(rest.drop_last() =~= seq![]);
        }
    }
}

/// Shifting in gives the number that the sampled bits spell, highest first, or its last sixteen
/// bits when there are more.
pub proof fn law_shift_in_ee_bits(eeprom: EepromInfo, first: u32, samples: Seq<u32>)
    requires
        1 <= samples.len() <= u16::MAX,
    ensures
        run(
            ShiftInEeBits::Start { eeprom, count: samples.len() as u16 },
            seq![first] + samples,
        ).1 == Step::<ShiftInEeBits, u16>::Done((number(answers(samples)) % 0x1_0000) as u16),
        run(
            ShiftInEeBits::Start { eeprom, count: samples.len() as u16 },
            (seq![first] + samples).drop_last(),
        ).1 is Wait,
{
    let start = ShiftInEeBits::Start { eeprom, count: samples.len() as u16 };
    lemma_run_one(start, first);
    lemma_run_append(start, seq![first], samples);
    lemma_samples(eeprom, seq![], 0, samples);
    assert(Seq::<bool>::empty() + answers(samples) =~= answers(samples));
    assert((seq![first] + samples).drop_last() =~= seq![first] + samples.drop_last());
    lemma_run_append(start, seq![first], samples.drop_last());
    if samples.len() == 1 {
        assert(samples.drop_last() =~= seq![]);
    }
}

/// While bits are shifted in, the data wire to the EEPROM is low.
pub proof fn law_data_low_while_shifting_in(p: ShiftInEeBits, reply: u32, i: int)
    requires
        0 <= i < p.next(reply).0.len(),
    ensures
        p.next(reply).0[i] matches Action::Write { offset, value } ==> offset == E1000_EECD && value
            & E1000_EECD_DI == 0,
{
    assert(((reply & !(8u32 | 4u32)) | 1) & 4 == 0 && ((reply & !4) & !1) & 4 == 0 && (((reply & !4)
        & !1) | 1) & 4 == 0) by (bit_vector);
}

/// As long as access is refused, the driver asks again; it gives up when it has been refused once
/// more than it has attempts.
pub proof fn law_acquire_eeprom(attempts: u32, polls: Seq<u32>)
    requires
        refused(polls),
        attempts <= E1000_EEPROM_GRANT_ATTEMPTS,
        polls.len() <= E1000_EEPROM_GRANT_ATTEMPTS - attempts + 1,
    ensures
        ({
            let end = run(AcquireEeprom::Grant { attempts }, polls).1;
            if polls.len() <= E1000_EEPROM_GRANT_ATTEMPTS - attempts {
                end == Step::<AcquireEeprom, ()>::Wait(
                    AcquireEeprom::Grant { attempts: (attempts + polls.len()) as u32 },
                )
            } else {
                end == Step::<AcquireEeprom, ()>::Fault(Fault::EepromNotGranted)
            }
        }),
    decreases polls.len(),
{
    if polls.len() > 0 {
        assert(polls[0] & E1000_EECD_GNT == 0);
        if attempts < E1000_EEPROM_GRANT_ATTEMPTS {
            assert forall|i: int| 0 <= i < polls.drop_first().len() implies (
            #[trigger] polls.drop_first()[i]) & E1000_EECD_GNT == 0 by {
                assert(polls[i + 1] & E1000_EECD_GNT == 0);
            }
            law_acquire_eeprom((attempts + 1) as u32, polls.drop_first());
        }
    }
}

/// The answers of a device that refuses access `polls` times, grants it with `granted`, shows
/// `levels` before opcode, address and word, answers with `samples`, and shows `last` before
/// standby and release.
pub open spec fn word_answers(
    first: u32,
    polls: Seq<u32>,
    granted: u32,
    levels: (u32, u32, u32),
    samples: Seq<u32>,
    last: (u32, u32),
) -> Seq<u32> {
    seq![first] + polls + seq![granted] + seq![levels.0] + seq![levels.1] + (seq![levels.2]
        + samples) + seq![last.0] + seq![last.1]
}

/// Whatever the device answers on the way, the word read is the one that its sixteen sampled bits
/// spell, highest first, provided that it grants access in time.
pub proof fn law_word_read(
    eeprom: EepromInfo,
    offset: u16,
    first: u32,
    polls: Seq<u32>,
    granted: u32,
    levels: (u32, u32, u32),
    samples: Seq<u32>,
    last: (u32, u32),
)
    requires
        refused(polls),
        polls.len() <= E1000_EEPROM_GRANT_ATTEMPTS,
        granted & E1000_EECD_GNT != 0,
        samples.len() == 16,
    ensures
        run(
            read_eeprom(eeprom, offset),
            word_answers(first, polls, granted, levels, samples, last),
        ).1 == Step::<ReadEeprom, u16>::Done(number(answers(samples)) as u16),
{
    let start = read_eeprom(eeprom, offset);
    let acquire = |a: AcquireEeprom| start.at(ReadPhase::Acquire(a));
    let shift_in = |x: ShiftInEeBits| start.at(ReadPhase::ShiftIn(x));
    // Access.
    lemma_run_one(AcquireEeprom::Request, first);
    law_acquire_eeprom(0, polls);
    lemma_run_append(AcquireEeprom::Request, seq![first], polls);
    let asked = seq![first] + polls;
    lemma_run_inside(AcquireEeprom::Request, acquire, asked);
    let p1 = acquire(AcquireEeprom::Grant { attempts: polls.len() as u32 });
    assert(run(start, asked).1 == Step::<ReadEeprom, u16>::Wait(p1));
    lemma_run_one(p1, granted);
    lemma_run_append(start, asked, seq![granted]);
    let r2 = asked + seq![granted];
    let p2 = start.at(ReadPhase::Opcode);
    assert(run(start, r2).1 == Step::<ReadEeprom, u16>::Wait(p2));
    // Command.
    lemma_run_one(p2, levels.0);
    lemma_run_append(start, r2, seq![levels.0]);
    let r3 = r2 + seq![levels.0];
    let p3 = start.at(ReadPhase::Address);
    lemma_run_one(p3, levels.1);
    lemma_run_append(start, r3, seq![levels.1]);
    let r4 = r3 + seq![levels.1];
    let s = ShiftInEeBits::Start { eeprom, count: 16 };
    let p4 = shift_in(s);
    assert(run(start, r4).1 == Step::<ReadEeprom, u16>::Wait(p4));
    // Word.
    let word_in = seq![levels.2] + samples;
    law_shift_in_ee_bits(eeprom, levels.2, samples);
    lemma_number_bound(answers(samples));
    lemma2_to64();
    let word = number(answers(samples)) as u16;
    let init = word_in.drop_last();
    lemma_run_inside(s, shift_in, init);
    let b = run(s, init).1->Wait_0;
    lemma_run_append(s, init, seq![word_in.last()]);
    lemma_run_one(b, word_in.last());
    assert(init + seq![word_in.last()] =~= word_in);
    assert(b.next(word_in.last()).1 == Step::<ShiftInEeBits, u16>::Done(word));
    lemma_run_append(p4, init, seq![word_in.last()]);
    lemma_run_one(shift_in(b), word_in.last());
    let p5 = start.at(ReadPhase::Standby { data: word });
    assert(run(p4, word_in).1 == Step::<ReadEeprom, u16>::Wait(p5));
    lemma_run_append(start, r4, word_in);
    let r5 = r4 + word_in;
    // Standby and release.
    lemma_run_one(p5, last.0);
    lemma_run_append(start, r5, seq![last.0]);
    let p6 = start.at(ReadPhase::Release { data: word });
    lemma_run_one(p6, last.1);
    lemma_run_append(start, r5 + seq![last.0], seq![last.1]);
}

/// A bound on the answers that the reading of a word can take before its last.
pub open spec fn answers_left(p: ReadEeprom) -> nat {
    match p.phase {
        ReadPhase::Acquire(AcquireEeprom::Request) => 1022,
        ReadPhase::Acquire(AcquireEeprom::Grant { attempts }) => if attempts
            <= E1000_EEPROM_GRANT_ATTEMPTS {
            (1021 - attempts) as nat
        } else {
            21
        },
        ReadPhase::Opcode => 20,
        ReadPhase::Address => 19,
        ReadPhase::ShiftIn(ShiftInEeBits::Start { count, .. }) => 2 + count as nat,
        ReadPhase::ShiftIn(ShiftInEeBits::Sample { left, .. }) => 1 + if left == 0 {
            1
        } else {
            left as nat
        },
        ReadPhase::Standby { .. } => 1,
        ReadPhase::Release { .. } => 0,
    }
}

/// No device can keep the reading of a word from ending: it hears at most 1023 answers.
pub proof fn law_read_ends(eeprom: EepromInfo, offset: u16, replies: Seq<u32>)
    ensures
        run(read_eeprom(eeprom, offset), replies).1 is Wait ==> replies.len() <= 1022,
{
    lemma_run_ends(read_eeprom(eeprom, offset), |p: ReadEeprom| answers_left(p), replies);
}

/// The levels that `actions` put on the wires, in order.
pub open spec fn levels(actions: Seq<Action>) -> Seq<Wires>
    decreases actions.len(),
{
    if actions.len() == 0 {
        seq![]
    } else {
        match actions.last() {
            Action::Write { offset, value } => if offset == 0x10 {
                levels(actions.drop_last()).push(wires(value))
            } else {
                levels(actions.drop_last())
            },
            _ => levels(actions.drop_last()),
        }
    }
}

/// Levels that are put on the wires in turn.
proof fn lemma_levels_append(a: Seq<Action>, b: Seq<Action>)
    ensures
        levels(a + b) == levels(a) + levels(b),
    decreases b.len(),
{
    if b.len() == 0 {
        assert(a + b =~= a);
        assert(levels(a) + seq![] =~= levels(a));
    } else {
        assert((a + b).drop_last() =~= a + b.drop_last());
        lemma_levels_append(a, b.drop_last());
        assert(levels(a + b) =~= levels(a) + levels(b));
    }
}

/// One level that is held.
proof fn lemma_level_held(eecd: u32, delay_usec: u16)
    ensures
        levels(hold(eecd, delay_usec)) == seq![wires(eecd)],
        levels(seq![reg_write(E1000_EECD, eecd)]) == seq![wires(eecd)],
{
    reveal_with_fuel(levels, 4);
    let held = hold(eecd, delay_usec);
    assert(held.drop_last().drop_last().drop_last() =~= seq![]);
    let single = seq![reg_write(E1000_EECD, eecd)];
    assert(single.drop_last() =~= seq![]);
    assert(levels(held) =~= seq![wires(eecd)]);
    assert(levels(single) =~= seq![wires(eecd)]);
}

/// When access is granted, clock and data fall first and then the EEPROM is selected; the writes
/// are forced out and a moment passes.
pub proof fn law_select_levels(eecd: u32)
    ensures
        levels(select_actions(eecd)) == seq![
            Wires { sk: false, di: false, ..wires(eecd) },
            Wires { cs: true, sk: false, di: false, ..wires(eecd) },
        ],
        select_actions(eecd).last() == Action::ConstUdelay(1),
        select_actions(eecd).drop_last().last() == (Action::Read { offset: 8 }),
{
    let low = eecd & !(E1000_EECD_DI | E1000_EECD_SK);
    lemma_wires(eecd);
    lemma_wires(low);
    reveal_with_fuel(levels, 5);
    let actions = select_actions(eecd);
    assert(actions.drop_last().drop_last().drop_last().drop_last() =~= seq![]);
    assert(levels(actions) =~= seq![wires(low), wires(low | E1000_EECD_CS)]);
}

/// Standby deselects the EEPROM with the clock low, raises the clock, selects it again and lets the
/// clock fall. The other wires stay as they were.
pub proof fn law_standby_levels(eecd: u32, delay_usec: u16)
    ensures
        levels(standby_actions(eecd, delay_usec)) == seq![
            Wires { cs: false, sk: false, ..wires(eecd) },
            Wires { cs: false, sk: true, ..wires(eecd) },
            Wires { cs: true, sk: true, ..wires(eecd) },
            Wires { cs: true, sk: false, ..wires(eecd) },
        ],
{
    let idle = eecd & !(E1000_EECD_CS | E1000_EECD_SK);
    let high = idle | E1000_EECD_SK;
    let selected = high | E1000_EECD_CS;
    let low = selected & !E1000_EECD_SK;
    lemma_wires(eecd);
    lemma_wires(idle);
    lemma_wires(high);
    lemma_wires(selected);
    let (a, b) = (hold(idle, delay_usec), hold(high, delay_usec));
    let (c, d) = (hold(selected, delay_usec), hold(low, delay_usec));
    lemma_level_held(idle, delay_usec);
    lemma_level_held(high, delay_usec);
    lemma_level_held(selected, delay_usec);
    lemma_level_held(low, delay_usec);
    lemma_levels_append(a, b);
    lemma_levels_append(a + b, c);
    lemma_levels_append(a + b + c, d);
    assert(levels(a + b + c + d) =~= seq![wires(idle), wires(high), wires(selected), wires(low)]);
}

/// Releasing the EEPROM deselects it with the data wire low, pulses the clock once while it is
/// deselected, and gives up the request for access at the end.
pub proof fn law_release_levels(eecd: u32, delay_usec: u16)
    ensures
        levels(release_actions(eecd, delay_usec)) == seq![
            Wires { cs: false, di: false, ..wires(eecd) },
            Wires { cs: false, di: false, sk: true, ..wires(eecd) },
            Wires { cs: false, di: false, sk: false, ..wires(eecd) },
            Wires { cs: false, di: false, sk: false, req: false },
        ],
{
    let idle = eecd & !(E1000_EECD_CS | E1000_EECD_DI);
    let high = idle | E1000_EECD_SK;
    let low = high & !E1000_EECD_SK;
    let end = low & !E1000_EECD_REQ;
    lemma_wires(eecd);
    lemma_wires(idle);
    lemma_wires(high);
    lemma_wires(low);
    let (a, b) = (seq![reg_write(E1000_EECD, idle)], hold(high, delay_usec));
    let (c, d) = (hold(low, delay_usec), seq![reg_write(E1000_EECD, end)]);
    lemma_level_held(idle, delay_usec);
    lemma_level_held(high, delay_usec);
    lemma_level_held(low, delay_usec);
    lemma_level_held(end, delay_usec);
    lemma_levels_append(a, b);
    lemma_levels_append(a + b, c);
    lemma_levels_append(a + b + c, d);
    assert(levels(a + b + c + d) =~= seq![wires(idle), wires(high), wires(low), wires(end)]);
}

/// Each level is forced out to the device and then held for the time given, before anything else.
pub open spec fn each_held(actions: Seq<Action>, delay_usec: u16) -> bool {
    forall|i: int|
        0 <= i < actions.len() && (#[trigger] actions[i] is Write) ==> {
            &&& i + 2 < actions.len()
            &&& actions[i + 1] == (Action::Read { offset: 8 })
            &&& actions[i + 2] == Action::Udelay(delay_usec as u64)
        }
}

proof fn lemma_each_held_append(a: Seq<Action>, b: Seq<Action>, delay_usec: u16)
    requires
        each_held(a, delay_usec),
        each_held(b, delay_usec),
    ensures
        each_held(a + b, delay_usec),
{
    let all = a + b;
    assert forall|i: int| 0 <= i < all.len() && (#[trigger] all[i] is Write) implies {
        &&& i + 2 < all.len()
        &&& all[i + 1] == (Action::Read { offset: 8 })
        &&& all[i + 2] == Action::Udelay(delay_usec as u64)
    } by {
        if i < a.len() {
            assert(all[i] == a[i]);
            assert(all[i + 1] == a[i + 1] && all[i + 2] == a[i + 2]);
        } else {
            assert(all[i] == b[i - a.len()]);
            assert(all[i + 1] == b[i + 1 - a.len()] && all[i + 2] == b[i + 2 - a.len()]);
        }
    }
}

/// Every level is held while bits are clocked out, but for the fall of the data wire at the end.
pub proof fn law_clock_out_held(eecd: u32, delay_usec: u16, data: u16, n: nat)
    ensures
        clock_out(eecd, delay_usec, data, n).len() > 0,
        each_held(clock_out(eecd, delay_usec, data, n).drop_last(), delay_usec),
    decreases n,
{
    if n > 0 {
        let low = with_di(eecd, bit_of(data as u32, n - 1));
        let high = low | E1000_EECD_SK;
        let back = high & !E1000_EECD_SK;
        let rest = clock_out(back, delay_usec, data, (n - 1) as nat);
        let pulse = hold(low, delay_usec) + hold(high, delay_usec) + hold(back, delay_usec);
        law_clock_out_held(back, delay_usec, data, (n - 1) as nat);
        assert(clock_out(eecd, delay_usec, data, n).drop_last() =~= pulse + rest.drop_last());
        lemma_each_held_append(pulse, rest.drop_last(), delay_usec);
    }
}

/// Every level is held while bits are shifted in, and during standby.
pub proof fn law_levels_held(p: ShiftInEeBits, eecd: u32, delay_usec: u16)
    ensures
        each_held(
            p.next(eecd).0,
            match p {
                ShiftInEeBits::Start { eeprom, count } => eeprom.delay_usec,
                ShiftInEeBits::Sample { eeprom, data, left } => eeprom.delay_usec,
            },
        ),
        each_held(standby_actions(eecd, delay_usec), delay_usec),
{
}

/// The bits of the control register that do not belong to the wires are written as they were read,
/// and no other register is written.
pub open spec fn others_kept(actions: Seq<Action>, eecd: u32) -> bool {
    forall|i: int|
        0 <= i < actions.len() ==> ((#[trigger] actions[i]) matches Action::Write { offset, value }
            ==> offset == 0x10 && value | 0x4F == eecd | 0x4F)
}

proof fn lemma_others_kept_append(a: Seq<Action>, b: Seq<Action>, eecd: u32)
    requires
        others_kept(a, eecd),
        others_kept(b, eecd),
    ensures
        others_kept(a + b, eecd),
{
    let all = a + b;
    assert forall|i: int| 0 <= i < all.len() implies ((#[trigger] all[i]) matches Action::Write {
        offset,
        value,
    } ==> offset == 0x10 && value | 0x4F == eecd | 0x4F) by {
        if i < a.len() {
            assert(all[i] == a[i]);
        } else {
            assert(all[i] == b[i - a.len()]);
        }
    }
}

/// Nothing that the driver does to the wires touches another bit.
proof fn lemma_wires_within(x: u32)
    ensures
        (x | E1000_EECD_SK) | 0x4F == x | 0x4F,
        (x & !E1000_EECD_SK) | 0x4F == x | 0x4F,
        (x | E1000_EECD_CS) | 0x4F == x | 0x4F,
        (x | E1000_EECD_DI) | 0x4F == x | 0x4F,
        (x & !E1000_EECD_DI) | 0x4F == x | 0x4F,
        (x & !E1000_EECD_DO) | 0x4F == x | 0x4F,
        (x | E1000_EECD_REQ) | 0x4F == x | 0x4F,
        (x & !E1000_EECD_REQ) | 0x4F == x | 0x4F,
        (x & !(E1000_EECD_DO | E1000_EECD_DI)) | 0x4F == x | 0x4F,
        (x & !(E1000_EECD_DI | E1000_EECD_SK)) | 0x4F == x | 0x4F,
        (x & !(E1000_EECD_CS | E1000_EECD_SK)) | 0x4F == x | 0x4F,
        (x & !(E1000_EECD_CS | E1000_EECD_DI)) | 0x4F == x | 0x4F,
{
    assert(1u32 | 0x4F == 0x4F && 2u32 | 0x4F == 0x4F && 4u32 | 0x4F == 0x4F && 8u32 | 0x4F == 0x4F
        && 0x40u32 | 0x4F == 0x4F && (8u32 | 4u32) | 0x4F == 0x4F && (4u32 | 1u32) | 0x4F == 0x4F
        && (2u32 | 1u32) | 0x4F == 0x4F && (2u32 | 4u32) | 0x4F == 0x4F) by (bit_vector);
    lemma_within(x, E1000_EECD_SK, 0x4F);
    lemma_within(x, E1000_EECD_CS, 0x4F);
    lemma_within(x, E1000_EECD_DI, 0x4F);
    lemma_within(x, E1000_EECD_DO, 0x4F);
    lemma_within(x, E1000_EECD_REQ, 0x4F);
    lemma_within(x, E1000_EECD_DO | E1000_EECD_DI, 0x4F);
    lemma_within(x, E1000_EECD_DI | E1000_EECD_SK, 0x4F);
    lemma_within(x, E1000_EECD_CS | E1000_EECD_SK, 0x4F);
    lemma_within(x, E1000_EECD_CS | E1000_EECD_DI, 0x4F);
}

proof fn lemma_clock_out_others(eecd: u32, delay_usec: u16, data: u16, n: nat)
    ensures
        others_kept(clock_out(eecd, delay_usec, data, n), eecd),
    decreases n,
{
    lemma_wires_within(eecd);
    if n > 0 {
        let low = with_di(eecd, bit_of(data as u32, n - 1));
        let high = low | E1000_EECD_SK;
        let back = high & !E1000_EECD_SK;
        lemma_wires_within(eecd & !E1000_EECD_DI);
        lemma_wires_within(low);
        lemma_wires_within(high);
        lemma_clock_out_others(back, delay_usec, data, (n - 1) as nat);
        let rest = clock_out(back, delay_usec, data, (n - 1) as nat);
        let pulse = hold(low, delay_usec) + hold(high, delay_usec) + hold(back, delay_usec);
        assert(clock_out(eecd, delay_usec, data, n) == pulse + rest);
        assert(others_kept(rest, eecd));
        assert(others_kept(pulse, eecd));
        lemma_others_kept_append(pulse, rest, eecd);
    }
}

/// Reading a word writes no register but the EEPROM's control register, and there it changes only
/// the bits of the wires.
pub proof fn law_others_kept(read: ReadEeprom, eecd: u32)
    ensures
        others_kept(read.next(eecd).0, eecd),
{
    let delay = read.eeprom.delay_usec;
    lemma_wires_within(eecd);
    match read.phase {
        ReadPhase::Acquire(_) => {
            let low = eecd & !(E1000_EECD_DI | E1000_EECD_SK);
            lemma_wires_within(low);
        },
        ReadPhase::Opcode => {
            let n = read.eeprom.opcode_bits as nat;
            lemma_clock_out_others(
                eecd & !E1000_EECD_DO,
                delay,
                EEPROM_READ_OPCODE_MICROWIRE as u16,
                n,
            );
        },
        ReadPhase::Address => {
            let n = read.eeprom.address_bits as nat;
            lemma_clock_out_others(eecd & !E1000_EECD_DO, delay, read.offset, n);
        },
        ReadPhase::ShiftIn(_) => {
            lemma_wires_within(eecd & !(E1000_EECD_DO | E1000_EECD_DI));
            lemma_wires_within(eecd & !E1000_EECD_DI);
            lemma_wires_within((eecd & !E1000_EECD_DI) & !E1000_EECD_SK);
        },
        ReadPhase::Standby { .. } => {
            let idle = eecd & !(E1000_EECD_CS | E1000_EECD_SK);
            lemma_wires_within(idle);
            lemma_wires_within(idle | E1000_EECD_SK);
            lemma_wires_within(idle | E1000_EECD_SK | E1000_EECD_CS);
        },
        ReadPhase::Release { .. } => {
            let idle = eecd & !(E1000_EECD_CS | E1000_EECD_DI);
            lemma_wires_within(idle);
            lemma_wires_within(idle | E1000_EECD_SK);
            lemma_wires_within((idle | E1000_EECD_SK) & !E1000_EECD_SK);
        },
    }
}

/// Access is asked for by raising the request alone. As long as it is refused, a pause precedes
/// each further look; after a thousand such looks a refusal is a fault. A grant ends the asking at
/// once.
pub proof fn law_access(attempts: u32, eecd: u32)
    ensures
        levels(AcquireEeprom::Request.next(eecd).0) == seq![Wires { req: true, ..wires(eecd) }],
        AcquireEeprom::Request.next(eecd).1 == Step::<AcquireEeprom, ()>::Wait(
            AcquireEeprom::Grant { attempts: 0 },
        ),
        ({
            let (actions, step) = (AcquireEeprom::Grant { attempts }).next(eecd);
            if eecd & 0x80 != 0 {
                step == Step::<AcquireEeprom, ()>::Done(())
            } else if attempts < 1000 {
                &&& actions == seq![Action::ConstUdelay(5)]
                &&& step == Step::<AcquireEeprom, ()>::Wait(
                    AcquireEeprom::Grant { attempts: (attempts + 1) as u32 },
                )
            } else {
                &&& actions == Seq::<Action>::empty()
                &&& step == Step::<AcquireEeprom, ()>::Fault(Fault::EepromNotGranted)
            }
        }),
{
    lemma_wires(eecd);
    lemma_level_held(eecd | E1000_EECD_REQ, 0);
}

/// Every write of `actions` has the bits `mask` as they are in `held`.
pub open spec fn bits_kept(actions: Seq<Action>, held: u32, mask: u32) -> bool {
    forall|i: int|
        0 <= i < actions.len() ==> ((#[trigger] actions[i]) matches Action::Write { value, .. }
            ==> value & mask == held & mask)
}

proof fn lemma_clock_out_kept(eecd: u32, delay_usec: u16, data: u16, n: nat)
    ensures
        bits_kept(clock_out(eecd, delay_usec, data, n), eecd, 0x4A),
    decreases n,
{
    assert(4u32 & 0x4A == 0 && 1u32 & 0x4A == 0) by (bit_vector);
    lemma_set_clear(eecd, E1000_EECD_DI, 0x4A);
    if n > 0 {
        let low = with_di(eecd, bit_of(data as u32, n - 1));
        let high = low | E1000_EECD_SK;
        let back = high & !E1000_EECD_SK;
        lemma_set_clear(eecd & !E1000_EECD_DI, E1000_EECD_DI, 0x4A);
        lemma_set_clear(low, E1000_EECD_SK, 0x4A);
        lemma_set_clear(high, E1000_EECD_SK, 0x4A);
        lemma_clock_out_kept(back, delay_usec, data, (n - 1) as nat);
        let rest = clock_out(back, delay_usec, data, (n - 1) as nat);
        let pulse = hold(low, delay_usec) + hold(high, delay_usec) + hold(back, delay_usec);
        let all = clock_out(eecd, delay_usec, data, n);
        assert(all == pulse + rest);
        assert(bits_kept(pulse, eecd, 0x4A));
        assert forall|i: int|
            0 <= i < all.len() implies ((#[trigger] all[i]) matches Action::Write { value, .. }
            ==> value & 0x4A == eecd & 0x4A) by {
            if i < pulse.len() {
                assert(all[i] == pulse[i]);
            } else {
                assert(all[i] == rest[i - pulse.len()]);
            }
        }
    }
}

/// While opcode and address go out and until the first bit is awaited, the request for access and
/// the selection of the EEPROM stay as they were, and the wire on which it answers is written as
/// low.
pub proof fn law_selection_kept(read: ReadEeprom, eecd: u32)
    requires
        read.phase is Opcode || read.phase is Address || (read.phase matches ReadPhase::ShiftIn(
            shift_in,
        ) && shift_in is Start),
    ensures
        bits_kept(read.next(eecd).0, eecd, 0x42),
        bits_kept(read.next(eecd).0, 0, 8),
{
    let delay = read.eeprom.delay_usec;
    let quiet = eecd & !E1000_EECD_DO;
    lemma_clock_out_kept(
        quiet,
        delay,
        EEPROM_READ_OPCODE_MICROWIRE as u16,
        read.eeprom.opcode_bits as nat,
    );
    lemma_clock_out_kept(quiet, delay, read.offset, read.eeprom.address_bits as nat);
    let actions = read.next(eecd).0;
    assert forall|i: int|
        0 <= i < actions.len() implies ((#[trigger] actions[i]) matches Action::Write { value, .. }
        ==> value & 0x42 == eecd & 0x42 && value & 8 == 0 & 8) by {
        if let Action::Write { value, .. } = actions[i] {
            assert(value & 0x42 == eecd & 0x42 && value & 8 == 0u32 & 8) by (bit_vector)
                requires
                    value & 0x4A == (eecd & !8u32) & 0x4A || value == (eecd & !(8u32 | 4u32)) | 1,
            ;
        }
    }
}

/// While bits come in, the request for access and the selection stay as they were; the request also
/// does while the EEPROM is put on standby, at the end of which other tasks may run.
pub proof fn law_request_kept(
    eeprom: EepromInfo,
    offset: u16,
    data: u16,
    left: u16,
    eecd: u32,
)
    ensures
        bits_kept((ShiftInEeBits::Sample { eeprom, data, left }).next(eecd).0, eecd, 0x42),
        ({
            let standby = ReadEeprom { eeprom, offset, phase: ReadPhase::Standby { data } };
            let (actions, step) = standby.next(eecd);
            &&& actions == standby_actions(eecd, eeprom.delay_usec).push(Action::CondResched)
            &&& bits_kept(actions, eecd, 0x40)
            &&& step == Step::<ReadEeprom, u16>::Wait(
                ReadEeprom { eeprom, offset, phase: ReadPhase::Release { data } },
            )
        }),
{
    assert(4u32 & 0x42 == 0 && 1u32 & 0x42 == 0 && (2u32 | 1u32) & 0x40 == 0 && 1u32 & 0x40 == 0
        && 2u32 & 0x40 == 0) by (bit_vector);
    let quiet = eecd & !E1000_EECD_DI;
    lemma_set_clear(eecd, E1000_EECD_DI, 0x42);
    lemma_set_clear(quiet, E1000_EECD_SK, 0x42);
    lemma_set_clear(quiet & !E1000_EECD_SK, E1000_EECD_SK, 0x42);
    let idle = eecd & !(E1000_EECD_CS | E1000_EECD_SK);
    let high = idle | E1000_EECD_SK;
    lemma_set_clear(eecd, E1000_EECD_CS | E1000_EECD_SK, 0x40);
    lemma_set_clear(idle, E1000_EECD_SK, 0x40);
    lemma_set_clear(high, E1000_EECD_CS, 0x40);
    lemma_set_clear(high | E1000_EECD_CS, E1000_EECD_SK, 0x40);
}

/// Every step of reading a word looks at the EEPROM's control register.
pub proof fn law_eeprom_asks(acquire: AcquireEeprom, shift_in: ShiftInEeBits, read: ReadEeprom)
    ensures
        acquire.asks() == 0x10,
        shift_in.asks() == 0x10,
        read.asks() == 0x10,
{
}

/// No bits wanted are none shifted in.
pub proof fn law_no_bits(eeprom: EepromInfo, eecd: u32)
    ensures
        (ShiftInEeBits::Start { eeprom, count: 0 }).next(eecd) == (
            Seq::<Action>::empty(),
            Step::<ShiftInEeBits, u16>::Done(0),
        ),
{
}

} // verus!
