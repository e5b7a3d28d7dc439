//! Power of the board: supply voltage, its source, and the charge of the cell.
//!
//! The converter sees a third of the supply rail. The cell feeds that rail
//! through a diode, so on battery its voltage is the rail plus the drop of the
//! diode; on USB the rail says nothing about the cell.

use vstd::prelude::*;

use crate::lipo;

verus! {

/// Reference of the converter, in millivolts.
pub const ADC_REF_MV: u32 = 3300;

/// Largest reading of the converter.
pub const ADC_MAX: u32 = 4095;

/// Ratio of the divider in front of the converter.
pub const DIVIDER: u32 = 3;

/// Drop of the diode between cell and rail at about a hundred milliamperes.
pub const SCHOTTKY_DROP_MV: u16 = 250;

/// How many samples make one reading.
pub const SAMPLES: usize = 16;

/// How long the supply settles before it is sampled, in milliseconds.
pub const SETTLE_MS: u64 = 2;

/// How far a measurement has come.
#[derive(Debug, Clone, Copy, PartialEq, Eq, Structural)]
pub enum MeasureStage {
    /// The supply settles.
    Settling,
    /// So many samples are taken, and the next one is being taken.
    Sampling(usize),
    /// All samples are there.
    Measured,
    /// A sample failed.
    Failed,
}

/// The stage that follows when what a stage does succeeded or failed.
pub open spec fn measure_after(stage: MeasureStage, succeeded: bool) -> MeasureStage {
    match stage {
        MeasureStage::Settling => MeasureStage::Sampling(0),
        MeasureStage::Sampling(taken) => if !succeeded {
            MeasureStage::Failed
        } else if taken + 1 < SAMPLES {
            MeasureStage::Sampling((taken + 1) as usize)
        } else {
            MeasureStage::Measured
        },
        ended => ended,
    }
}

/// The stage that follows. The first failure ends a measurement.
pub fn next_measure_stage(stage: MeasureStage, succeeded: bool) -> (r: MeasureStage)
    ensures
        r == measure_after(stage, succeeded),
{
    match stage {
        MeasureStage::Settling => MeasureStage::Sampling(0),
        MeasureStage::Sampling(taken) => {
            if !succeeded {
                MeasureStage::Failed
            } else if taken < SAMPLES - 1 {
                MeasureStage::Sampling(taken + 1)
            } else {
                MeasureStage::Measured
            }
        },
        ended => ended,
    }
}

/// Whether a measurement is under way.
pub open spec fn is_measuring(stage: MeasureStage) -> bool {
    stage == MeasureStage::Settling || stage is Sampling
}

/// Whether the supply runs in constant PWM. It does so for the time of a
/// measurement: saving power it ripples by tens of millivolts.
pub fn constant_pwm(stage: MeasureStage) -> (r: bool)
    ensures
        r == is_measuring(stage),
{
    match stage {
        MeasureStage::Settling => true,
        MeasureStage::Sampling(_) => true,
        _ => false,
    }
}

/// The stage after the supply has settled and these samples came off or failed.
pub open spec fn sampled(outcomes: Seq<bool>) -> MeasureStage
    decreases outcomes.len(),
{
    if outcomes.len() == 0 {
        measure_after(MeasureStage::Settling, true)
    } else {
        measure_after(sampled(outcomes.drop_last()), outcomes.last())
    }
}

/// The supply is in constant PWM just as long as samples are missing and none
/// has failed. After the last sample, and after the first failed one, it is
/// back to normal.
pub proof fn law_constant_pwm_ends_with_the_measurement(outcomes: Seq<bool>)
    ensures
        is_measuring(sampled(outcomes)) <==> outcomes.len() < SAMPLES && !outcomes.contains(false),
        sampled(outcomes) == MeasureStage::Measured <==> outcomes.len() >= SAMPLES && !outcomes.take(
            SAMPLES as int,
        ).contains(false),
    decreases outcomes.len(),
{
    if outcomes.len() > 0 {
        let before = outcomes.drop_last();
        law_constant_pwm_ends_with_the_measurement(before);
        lemma_sampling_counts(before);
        assert(outcomes =~= before.push(outcomes.last()));
        assert(outcomes.contains(false) <==> before.contains(false) || !outcomes.last()) by {
            if before.contains(false) {
                let i = choose|i: int| 0 <= i < before.len() && before[i] == false;
                assert(outcomes[i] == false);
            }
            if !outcomes.last() {
                assert(outcomes[outcomes.len() - 1] == false);
            }
        }
        if outcomes.len() > SAMPLES {
            assert(outcomes.take(SAMPLES as int) =~= before.take(SAMPLES as int));
        } else if outcomes.len() == SAMPLES {
            assert(outcomes.take(SAMPLES as int) =~= outcomes);
        }
    }
}

proof fn lemma_sampling_counts(outcomes: Seq<bool>)
    ensures
        sampled(outcomes) matches MeasureStage::Sampling(taken) ==> taken == outcomes.len() && taken
            < SAMPLES,
        sampled(outcomes) != MeasureStage::Settling,
    decreases outcomes.len(),
{
    if outcomes.len() > 0 {
        lemma_sampling_counts(outcomes.drop_last());
    }
}

/// Where the board takes its power from.
#[derive(Debug, Clone, Copy, PartialEq, Eq, Structural)]
pub enum Source {
    /// USB holds the rail; nothing can be said of the cell.
    Usb,
    /// The cell.
    Battery,
}

/// One reading.
#[derive(Debug, Clone, Copy, PartialEq, Eq, Structural)]
pub struct Reading {
    /// Voltage of the rail, in millivolts.
    pub vsys_mv: u16,
    /// Where the power comes from.
    pub source: Source,
    /// Voltage of the cell, in millivolts. `None` on USB.
    pub vbat_mv: Option<u16>,
    /// Charge of the cell, in percent. `None` on USB.
    pub percent: Option<u8>,
}

/// Sum of samples.
pub open spec fn total(samples: Seq<u16>) -> nat
    decreases samples.len(),
{
    if samples.len() == 0 {
        0
    } else {
        total(samples.drop_last()) + samples.last() as nat
    }
}

/// Voltage of the rail for a set of samples, in millivolts, in sixteen bits.
pub open spec fn rail_mv(samples: Seq<u16>) -> nat {
    ((total(samples) / 16) * 9900 / 4095) % 65536
}

/// The reading that samples and the USB sensor amount to.
pub open spec fn reading_of(samples: Seq<u16>, usb: bool) -> Reading {
    let vsys = rail_mv(samples);
    if usb {
        Reading { vsys_mv: vsys as u16, source: Source::Usb, vbat_mv: None, percent: None }
    } else {
        Reading {
            vsys_mv: vsys as u16,
            source: Source::Battery,
            vbat_mv: Some((vsys + SCHOTTKY_DROP_MV) as u16),
            percent: Some(lipo::charge((vsys + SCHOTTKY_DROP_MV) as int) as u8),
        }
    }
}

/// Makes a reading of one set of samples.
pub fn reading(samples: &[u16; SAMPLES], usb: bool) -> (r: Reading)
    requires
        usb || rail_mv(samples@) + SCHOTTKY_DROP_MV <= u16::MAX,
    ensures
        r == reading_of(samples@, usb),
{
    let mut acc: u32 = 0;
    let mut i: usize = 0;
    proof {
        assert(samples@.take(0) =~= Seq::<u16>::empty());
    }
    while i < SAMPLES
        invariant
            i <= SAMPLES,
            acc == total(samples@.take(i as int)),
            acc <= 65535 * i,
        decreases SAMPLES - i,
    {
        proof {
            assert(samples@.take(i + 1).drop_last() =~= samples@.take(i as int));
            assert(samples@.take(i + 1).last() == samples@[i as int]);
        }
        acc = acc + samples[i] as u32;
        i = i + 1;
    }
    proof {
        assert(samples@.take(i as int) =~= samples@);
    }
    let raw: u32 = acc / SAMPLES as u32;
    let vsys_mv: u16 = ((raw * ADC_REF_MV * DIVIDER / ADC_MAX) % 65536) as u16;
    if usb {
        Reading { vsys_mv, source: Source::Usb, vbat_mv: None, percent: None }
    } else {
        let vbat_mv: u16 = vsys_mv + SCHOTTKY_DROP_MV;
        Reading {
            vsys_mv,
            source: Source::Battery,
            vbat_mv: Some(vbat_mv),
            percent: Some(lipo::percent(vbat_mv)),
        }
    }
}

/// A twelve-bit converter never leaves the range of the reading: its samples
/// stay below 10 V on the rail.
pub proof fn law_twelve_bit_samples_fit(samples: Seq<u16>)
    requires
        samples.len() == SAMPLES,
        forall|i: int| 0 <= i < samples.len() ==> #[trigger] samples[i] <= ADC_MAX,
    ensures
        rail_mv(samples) <= 9900,
        rail_mv(samples) + SCHOTTKY_DROP_MV <= u16::MAX,
{
    lemma_total_bound(samples);
}

proof fn lemma_total_bound(samples: Seq<u16>)
    requires
        forall|i: int| 0 <= i < samples.len() ==> #[trigger] samples[i] <= ADC_MAX,
    ensures
        total(samples) <= 4095 * samples.len(),
    decreases samples.len(),
{
    if samples.len() > 0 {
        lemma_total_bound(samples.drop_last());
    }
}

/// On USB nothing is said of the cell; on battery both figures are there.
pub proof fn law_usb_hides_the_cell(samples: Seq<u16>, usb: bool)
    ensures
        usb ==> reading_of(samples, usb).vbat_mv is None && reading_of(samples, usb).percent is None,
        !usb ==> reading_of(samples, usb).vbat_mv is Some && reading_of(
            samples,
            usb,
        ).percent is Some,
{
}

/// Samples add up, however they are divided.
pub proof fn law_samples_add_up(a: Seq<u16>, b: Seq<u16>, sample: u16)
    ensures
        total(a + b) == total(a) + total(b),
        total(seq![sample]) == sample,
    decreases b.len(),
{
    reveal_with_fuel(total, 2);
    assert(seq![sample].drop_last() =~= Seq::<u16>::empty());
    assert(seq![sample].last() == sample);
    if b.len() == 0 {
        assert(a + b =~= a);
    } else {
        assert((a + b).drop_last() =~= a + b.drop_last());
        law_samples_add_up(a, b.drop_last(), sample);
    }
}

/// The rail has three times the share of 3300 mV that the mean of sixteen
/// samples has of 4095, both rounded down. Where sixteen bits are not enough
/// the upper ones are lost, which samples of twelve bits never reach.
pub proof fn law_rail_voltage(samples: Seq<u16>, mean: nat, mv: nat)
    requires
        16 * mean <= total(samples) < 16 * (mean + 1),
        4095 * mv <= 3 * 3300 * mean < 4095 * (mv + 1),
    ensures
        rail_mv(samples) == mv % 65536,
        mean <= 4095 ==> rail_mv(samples) == mv,
{
    assert(total(samples) / 16 == mean);
    assert(mean * 9900 / 4095 == mv) by (nonlinear_arith)
        requires
            4095 * mv <= 3 * 3300 * mean < 4095 * (mv + 1),
    ;
}

/// On battery the cell stands 250 mV above the rail, and its charge is that of
/// its own voltage. The voltage of the rail is told either way.
pub proof fn law_cell_stands_above_the_rail(samples: Seq<u16>, usb: bool)
    requires
        rail_mv(samples) + 250 <= 65535,
    ensures
        ({
            let reading = reading_of(samples, usb);
            &&& reading.vsys_mv == rail_mv(samples)
            &&& reading.source == Source::Usb <==> usb
            &&& !usb ==> reading.vbat_mv == Some((reading.vsys_mv + 250) as u16)
            &&& !usb ==> (reading.percent matches Some(percent) && percent == lipo::charge(
                reading.vsys_mv + 250,
            ))
        }),
{
    let cell = rail_mv(samples) as int + 250;
    lipo::law_charge_is_monotonic(cell, cell);
}

/// A measurement takes sixteen samples, one after the other. One that fails
/// ends it, and what has ended stays as it is.
pub proof fn law_sixteen_samples_make_a_reading(taken: usize, succeeded: bool)
    ensures
        measure_after(MeasureStage::Settling, succeeded) == MeasureStage::Sampling(0),
        taken < 15 ==> measure_after(MeasureStage::Sampling(taken), true) == MeasureStage::Sampling(
            (taken + 1) as usize,
        ),
        taken >= 15 ==> measure_after(MeasureStage::Sampling(taken), true)
            == MeasureStage::Measured,
        measure_after(MeasureStage::Sampling(taken), false) == MeasureStage::Failed,
        measure_after(MeasureStage::Measured, succeeded) == MeasureStage::Measured,
        measure_after(MeasureStage::Failed, succeeded) == MeasureStage::Failed,
{
}

} // verus!
