//! What the waveform meter promises.

use vstd::prelude::*;
use crate::wave::{
    amplitude, bottom_dots, column, column_count, glyph, law_glyph_code, law_peak, level, peak,
    top_dots, WaveFrame, WaveStep, Waveform, BLF, BRF, TLF, TRF,
};

verus! {

/// How far a sample lies from silence.
pub open spec fn loudness(sample: u8) -> int {
    if sample < 128 {
        128 - sample
    } else {
        sample - 128
    }
}

/// One of the samples from `from` up to `to` is at least so loud.
pub open spec fn reaches(samples: Seq<u8>, from: int, to: int, loud: int) -> bool {
    exists|i: int| from <= i < to && loudness(#[trigger] samples[i]) >= loud
}

/// A braille character, by the number of its dots' bits.
pub open spec fn braille_bits(c: char) -> u8 {
    (c as u32 - 0x2800) as u8
}

/// The character is a braille one with this bit set.
pub open spec fn has_dot(c: char, bit: u8) -> bool {
    braille_bits(c) & bit != 0
}

/// The two characters draw the 120 samples of column `k`: the left dots tell
/// how loud the first 60 samples get, the right dots how loud the other 60.
/// Each step of 20 adds a dot, upwards in the upper row and downwards in the
/// lower one.
pub open spec fn draws_column(top: char, bottom: char, samples: Seq<u8>, k: int) -> bool {
    let from = 120 * k;
    let mid = 120 * k + 60;
    let to = 120 * k + 120;
    &&& 0x2800 <= top as u32 <= 0x28FF && 0x2800 <= bottom as u32 <= 0x28FF
    &&& has_dot(top, 0x40) <==> reaches(samples, from, mid, 20)
    &&& has_dot(top, 0x04) <==> reaches(samples, from, mid, 40)
    &&& has_dot(top, 0x02) <==> reaches(samples, from, mid, 60)
    &&& has_dot(top, 0x01) <==> reaches(samples, from, mid, 80)
    &&& has_dot(top, 0x80) <==> reaches(samples, mid, to, 20)
    &&& has_dot(top, 0x20) <==> reaches(samples, mid, to, 40)
    &&& has_dot(top, 0x10) <==> reaches(samples, mid, to, 60)
    &&& has_dot(top, 0x08) <==> reaches(samples, mid, to, 80)
    &&& has_dot(bottom, 0x01) <==> reaches(samples, from, mid, 20)
    &&& has_dot(bottom, 0x02) <==> reaches(samples, from, mid, 40)
    &&& has_dot(bottom, 0x04) <==> reaches(samples, from, mid, 60)
    &&& has_dot(bottom, 0x40) <==> reaches(samples, from, mid, 80)
    &&& has_dot(bottom, 0x08) <==> reaches(samples, mid, to, 20)
    &&& has_dot(bottom, 0x10) <==> reaches(samples, mid, to, 40)
    &&& has_dot(bottom, 0x20) <==> reaches(samples, mid, to, 60)
    &&& has_dot(bottom, 0x80) <==> reaches(samples, mid, to, 80)
}

proof fn lemma_peak_reaches(samples: Seq<u8>, from: int, to: int, part: Seq<u8>, loud: int)
    requires
        0 <= from < to <= samples.len(),
        part == samples.subrange(from, to),
        loud > 0,
    ensures
        reaches(samples, from, to, loud) <==> peak(part) >= loud,
{
    law_peak(part);
    if reaches(samples, from, to, loud) {
        let i = choose|i: int| from <= i < to && loudness(#[trigger] samples[i]) >= loud;
        assert(part[i - from] == samples[i]);
    }
    if peak(part) >= loud {
        let i = choose|i: int|
            0 <= i < part.len() && amplitude(#[trigger] part[i]) == peak(part);
        assert(samples[from + i] == part[i]);
        assert(loudness(samples[from + i]) >= loud);
    }
}

proof fn lemma_level(part: Seq<u8>)
    ensures
        0 <= level(peak(part)) <= 4,
        level(peak(part)) >= 1 <==> peak(part) >= 20,
        level(peak(part)) >= 2 <==> peak(part) >= 40,
        level(peak(part)) >= 3 <==> peak(part) >= 60,
        level(peak(part)) >= 4 <==> peak(part) >= 80,
{
}

proof fn lemma_top_bits(l: u8, r: u8)
    requires
        l == 0 || l == 0x40 || l == 0x44 || l == 0x46 || l == 0x47,
        r == 0 || r == 0x80 || r == 0xA0 || r == 0xB0 || r == 0xB8,
    ensures
        (l | r) & 0x40 != 0 <==> l != 0,
        (l | r) & 0x04 != 0 <==> l == 0x44 || l == 0x46 || l == 0x47,
        (l | r) & 0x02 != 0 <==> l == 0x46 || l == 0x47,
        (l | r) & 0x01 != 0 <==> l == 0x47,
        (l | r) & 0x80 != 0 <==> r != 0,
        (l | r) & 0x20 != 0 <==> r == 0xA0 || r == 0xB0 || r == 0xB8,
        (l | r) & 0x10 != 0 <==> r == 0xB0 || r == 0xB8,
        (l | r) & 0x08 != 0 <==> r == 0xB8,
{
    assert(((l | r) & 0x40 != 0 <==> l != 0) && ((l | r) & 0x04 != 0 <==> l == 0x44 || l == 0x46
        || l == 0x47) && ((l | r) & 0x02 != 0 <==> l == 0x46 || l == 0x47) && ((l | r) & 0x01 != 0
        <==> l == 0x47) && ((l | r) & 0x80 != 0 <==> r != 0) && ((l | r) & 0x20 != 0 <==> r == 0xA0
        || r == 0xB0 || r == 0xB8) && ((l | r) & 0x10 != 0 <==> r == 0xB0 || r == 0xB8) && ((l | r)
        & 0x08 != 0 <==> r == 0xB8)) by (bit_vector)
        requires
            l == 0 || l == 0x40 || l == 0x44 || l == 0x46 || l == 0x47,
            r == 0 || r == 0x80 || r == 0xA0 || r == 0xB0 || r == 0xB8,
    ;
}

proof fn lemma_bottom_bits(l: u8, r: u8)
    requires
        l == 0 || l == 0x01 || l == 0x03 || l == 0x07 || l == 0x47,
        r == 0 || r == 0x08 || r == 0x18 || r == 0x38 || r == 0xB8,
    ensures
        (l | r) & 0x01 != 0 <==> l != 0,
        (l | r) & 0x02 != 0 <==> l == 0x03 || l == 0x07 || l == 0x47,
        (l | r) & 0x04 != 0 <==> l == 0x07 || l == 0x47,
        (l | r) & 0x40 != 0 <==> l == 0x47,
        (l | r) & 0x08 != 0 <==> r != 0,
        (l | r) & 0x10 != 0 <==> r == 0x18 || r == 0x38 || r == 0xB8,
        (l | r) & 0x20 != 0 <==> r == 0x38 || r == 0xB8,
        (l | r) & 0x80 != 0 <==> r == 0xB8,
{
    assert(((l | r) & 0x01 != 0 <==> l != 0) && ((l | r) & 0x02 != 0 <==> l == 0x03 || l == 0x07
        || l == 0x47) && ((l | r) & 0x04 != 0 <==> l == 0x07 || l == 0x47) && ((l | r) & 0x40 != 0
        <==> l == 0x47) && ((l | r) & 0x08 != 0 <==> r != 0) && ((l | r) & 0x10 != 0 <==> r == 0x18
        || r == 0x38 || r == 0xB8) && ((l | r) & 0x20 != 0 <==> r == 0x38 || r == 0xB8) && ((l | r)
        & 0x80 != 0 <==> r == 0xB8)) by (bit_vector)
        requires
            l == 0 || l == 0x01 || l == 0x03 || l == 0x07 || l == 0x47,
            r == 0 || r == 0x08 || r == 0x18 || r == 0x38 || r == 0xB8,
    ;
}

proof fn lemma_draws_column(samples: Seq<u8>, k: int)
    requires
        0 <= k < column_count(samples),
    ensures
        draws_column(
            glyph(top_dots(column(samples, k))),
            glyph(bottom_dots(column(samples, k))),
            samples,
            k,
        ),
{
    let col = column(samples, k);
    let left = col.take(60);
    let right = col.skip(60);
    let from = 120 * k;
    assert(left =~= samples.subrange(from, from + 60));
    assert(right =~= samples.subrange(from + 60, from + 120));
    lemma_peak_reaches(samples, from, from + 60, left, 20);
    lemma_peak_reaches(samples, from, from + 60, left, 40);
    lemma_peak_reaches(samples, from, from + 60, left, 60);
    lemma_peak_reaches(samples, from, from + 60, left, 80);
    lemma_peak_reaches(samples, from + 60, from + 120, right, 20);
    lemma_peak_reaches(samples, from + 60, from + 120, right, 40);
    lemma_peak_reaches(samples, from + 60, from + 120, right, 60);
    lemma_peak_reaches(samples, from + 60, from + 120, right, 80);
    lemma_level(left);
    lemma_level(right);
    let ll = level(peak(left));
    let rl = level(peak(right));
    lemma_top_bits(TLF@[ll], TRF@[rl]);
    lemma_bottom_bits(BLF@[ll], BRF@[rl]);
    law_glyph_code(top_dots(col));
    law_glyph_code(bottom_dots(col));
}

/// Every sample counts. Samples that a meter is fed join those that it holds
/// back. Each 120 of them add a column on the right that draws just them; the
/// columns before stay as they were, in their order, and of more than 200 the
/// oldest fall off on the left. The samples that are left over are held back.
pub proof fn law_feed(
    wave: &mut Waveform,
    chunk: &[u8],
    changed: bool,
    before: WaveFrame,
    after: WaveFrame,
)
    requires
        wave.wf(),
        call_ensures(Waveform::feed, (wave, chunk), changed),
        call_ensures(Waveform::frame, (&*wave,), before),
        call_ensures(Waveform::frame, (&*final(wave),), after),
    ensures
        ({
            let input = old(wave).samples@ + chunk@;
            let new = input.len() as int / 120;
            let all = before.top@.len() + new;
            let gone = all - after.top@.len();
            &&& changed <==> input.len() >= 120
            &&& final(wave).samples@ == input.skip(120 * new)
            &&& before.top@.len() == before.bot@.len()
            &&& after.top@.len() == after.bot@.len() == (if all <= 200 {
                all
            } else {
                200
            })
            &&& forall|j: int|
                0 <= j < after.top@.len() && j + gone < before.top@.len() ==> (
                #[trigger] after.top@[j]) == before.top@[j + gone] && after.bot@[j]
                    == before.bot@[j + gone]
            &&& forall|j: int|
                0 <= j < after.top@.len() && j + gone >= before.top@.len() ==> draws_column(
                    #[trigger] after.top@[j],
                    after.bot@[j],
                    input,
                    j + gone - before.top@.len(),
                )
        }),
{
    let input = old(wave).samples@ + chunk@;
    let new = input.len() as int / 120;
    let top = before.top@;
    let all = top.len() + new;
    let gone = all - after.top@.len();
    assert(column_count(input) == new);
    assert forall|j: int|
        0 <= j < after.top@.len() && j + gone >= top.len() implies draws_column(
        #[trigger] after.top@[j],
        after.bot@[j],
        input,
        j + gone - top.len(),
    ) by {
        lemma_draws_column(input, j + gone - top.len());
    }
}

/// A new meter shows nothing and holds nothing back.
pub proof fn law_new_meter(wave: Waveform, shown: WaveFrame)
    requires
        call_ensures(Waveform::new, (), wave),
        call_ensures(Waveform::frame, (&wave,), shown),
    ensures
        wave.wf(),
        wave.samples@.len() == 0,
        shown.top@.len() == 0 && shown.bot@.len() == 0,
{
}

/// A read without an answer, or with nothing in it, ends the stream and
/// leaves the meter as it is.
pub proof fn law_end_of_samples(
    wave: &mut Waveform,
    data: Option<&[u8]>,
    idle_millis: u64,
    step: WaveStep,
)
    requires
        wave.wf(),
        data is None || data.unwrap()@.len() == 0,
        call_ensures(Waveform::on_read, (wave, data, idle_millis), step),
    ensures
        step is Finished,
        *final(wave) == *old(wave),
{
}

/// Samples that were read are fed to the meter. What it shows is sent if a
/// column was completed, and if the last frame was sent 16 milliseconds ago
/// or earlier.
pub proof fn law_samples_are_fed(
    wave: &mut Waveform,
    other: &mut Waveform,
    chunk: &[u8],
    idle_millis: u64,
    step: WaveStep,
    changed: bool,
    shown: WaveFrame,
)
    requires
        wave.wf() && other.wf(),
        *wave == *other,
        chunk@.len() > 0,
        call_ensures(Waveform::on_read, (wave, Some(chunk), idle_millis), step),
        call_ensures(Waveform::feed, (other, chunk), changed),
        call_ensures(Waveform::frame, (&*final(other),), shown),
    ensures
        final(wave).samples@ == final(other).samples@,
        final(wave).top_buf@ == final(other).top_buf@,
        final(wave).bot_buf@ == final(other).bot_buf@,
        !(step is Finished),
        step is Send <==> changed && idle_millis >= 16,
        step matches WaveStep::Send(frame) ==> frame.top@ == shown.top@ && frame.bot@ == shown.bot@,
{
}

} // verus!
