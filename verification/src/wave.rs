//! The waveform meter: audio samples drawn with two rows of braille glyphs.

use vstd::prelude::*;
use vstd::utf8::{
    encode_scalar, encode_utf8, encode_utf8_decode_utf8, encode_utf8_first_scalar,
    encode_utf8_valid_utf8, is_char_boundary, pop_first_scalar,
};
use crate::unicode::from_utf8;

verus! {

/// How many samples one column of the meter stands for.
pub const SAMPLES_PER_COL: usize = 120;

/// How many columns the meter remembers.
pub const WAVE_BUFFER_COLS: usize = 200;

/// The least time between two frames, in milliseconds: about 60 Hz.
pub const FRAME_MILLIS: u64 = 16;

/// The dots of the top row's left half for each level; it fills upwards.
pub const TLF: [u8; 5] = [0, 0x40, 0x44, 0x46, 0x47];

/// The dots of the top row's right half for each level.
pub const TRF: [u8; 5] = [0, 0x80, 0xA0, 0xB0, 0xB8];

/// The dots of the bottom row's left half for each level; it fills downwards.
pub const BLF: [u8; 5] = [0, 0x01, 0x03, 0x07, 0x47];

/// The dots of the bottom row's right half for each level.
pub const BRF: [u8; 5] = [0, 0x08, 0x18, 0x38, 0xB8];

/// The braille character with the dots `b`: U+2800 + `b`.
pub open spec fn glyph(b: u8) -> char {
    (0x2800 + b) as char
}

/// The UTF-8 encoding of a braille character.
pub open spec fn glyph_code(b: u8) -> Seq<u8> {
    seq![0xE2u8, (0xA0 + b / 64) as u8, (0x80 + b % 64) as u8]
}

/// The UTF-8 encoding of the braille character with the dots `b`.
pub fn braille_char(b: u8) -> (bytes: [u8; 3])
    ensures
        bytes@ == glyph_code(b),
        bytes@ == encode_scalar(glyph(b) as u32),
{
    let bytes: [u8; 3] = [0xE2, 0xA0 + (b / 64), 0x80 + (b % 64)];
    assert(bytes@ =~= glyph_code(b));
    proof {
        law_glyph_code(b);
    }
    bytes
}

/// The three bytes are the UTF-8 encoding of U+2800 + `b`, for every `b`.
pub proof fn law_glyph_code(b: u8)
    ensures
        encode_scalar(glyph(b) as u32) == glyph_code(b),
        glyph(b) as u32 == 0x2800 + b,
{
    let u = (0x2800 + b) as u32;
    assert(glyph(b) as u32 == u);
    assert(0xE0u8 | ((u >> 12) & 0x0F) as u8 == 0xE2u8 && 0x80u8 | ((u >> 6) & 0x3F) as u8 == (0xA0
        + b / 64) as u8 && 0x80u8 | (u & 0x3F) as u8 == (0x80 + b % 64) as u8) by (bit_vector)
        requires
            u == (0x2800 + b) as u32,
    ;
    assert(encode_scalar(u) =~= glyph_code(b));
}

/// A text of braille glyphs.
pub open spec fn is_glyph_text(s: Seq<char>) -> bool {
    forall|i: int| 0 <= i < s.len() ==> 0x2800 <= (#[trigger] s[i]) as u32 <= 0x28FF
}

/// The text that draws the given dots, one glyph for each column.
pub open spec fn glyph_text(dots: Seq<u8>) -> Seq<char> {
    Seq::new(dots.len(), |i: int| glyph(dots[i]))
}

/// The UTF-8 encoding of that text.
#[verifier::opaque]
pub open spec fn glyph_bytes(dots: Seq<u8>) -> Seq<u8> {
    Seq::new(3 * dots.len(), |j: int| glyph_code(dots[j / 3])[j % 3])
}

/// The dots that such an encoding draws.
#[verifier::opaque]
pub open spec fn drawn_dots(bytes: Seq<u8>) -> Seq<u8> {
    Seq::new(
        bytes.len() / 3,
        |i: int| ((bytes[3 * i + 1] - 0xA0) * 64 + (bytes[3 * i + 2] - 0x80)) as u8,
    )
}

/// The bytes of a drawing are the UTF-8 encoding of its glyphs, and the
/// drawing can be told from them.
pub proof fn law_drawing_is_text(dots: Seq<u8>)
    ensures
        encode_utf8(glyph_text(dots)) == glyph_bytes(dots),
        glyph_bytes(dots).len() == 3 * dots.len(),
        is_glyph_text(glyph_text(dots)),
        drawn_dots(glyph_bytes(dots)) == dots,
{
    let text = glyph_text(dots);
    assert(glyph_bytes(dots).len() == 3 * dots.len()) by {
        reveal(glyph_bytes);
    }
    assert forall|i: int| 0 <= i < text.len() implies 0x2800 <= (#[trigger] text[i]) as u32
        <= 0x28FF by {
        law_glyph_code(dots[i]);
    }
    lemma_drawing_encoding(dots);
    lemma_drawn_dots(dots);
}

proof fn lemma_drawn_dots(dots: Seq<u8>)
    ensures
        drawn_dots(glyph_bytes(dots)) == dots,
{
    reveal(glyph_bytes);
    reveal(drawn_dots);
    let bytes = glyph_bytes(dots);
    assert(bytes.len() / 3 == dots.len());
    assert forall|i: int| 0 <= i < dots.len() implies #[trigger] drawn_dots(bytes)[i]
        == dots[i] by {
        let b = dots[i];
        assert((3 * i + 1) / 3 == i && (3 * i + 1) % 3 == 1);
        assert((3 * i + 2) / 3 == i && (3 * i + 2) % 3 == 2);
        assert(bytes[3 * i + 1] == glyph_code(b)[1]);
        assert(bytes[3 * i + 2] == glyph_code(b)[2]);
    }
    assert(drawn_dots(bytes) =~= dots);
}

proof fn lemma_drawing_encoding(dots: Seq<u8>)
    ensures
        encode_utf8(glyph_text(dots)) == glyph_bytes(dots),
    decreases dots.len(),
{
    reveal(glyph_bytes);
    let text = glyph_text(dots);
    let bytes = glyph_bytes(dots);
    if dots.len() > 0 {
        let rest = dots.drop_first();
        lemma_drawing_encoding(rest);
        law_glyph_code(dots[0]);
        assert(text.drop_first() =~= glyph_text(rest));
        let joined = glyph_code(dots[0]) + glyph_bytes(rest);
        assert forall|j: int| 0 <= j < bytes.len() implies #[trigger] bytes[j] == joined[j] by {
            if j >= 3 {
                assert((j - 3) / 3 == j / 3 - 1 && (j - 3) % 3 == j % 3);
                assert(rest[(j - 3) / 3] == dots[j / 3]);
            } else {
                assert(j / 3 == 0 && j % 3 == j);
            }
        }
        assert(bytes =~= joined);
    } else {
        assert(bytes =~= Seq::<u8>::empty());
    }
}

/// How far a sample lies from silence.
pub open spec fn amplitude(sample: u8) -> nat {
    if sample >= 128 {
        (sample - 128) as nat
    } else {
        (128 - sample) as nat
    }
}

/// The greatest amplitude among some samples.
pub open spec fn peak(samples: Seq<u8>) -> nat
    decreases samples.len(),
{
    if samples.len() == 0 {
        0
    } else {
        let before = peak(samples.drop_last());
        if amplitude(samples.last()) > before {
            amplitude(samples.last())
        } else {
            before
        }
    }
}

/// `peak` is the amplitude of the loudest sample.
pub proof fn law_peak(samples: Seq<u8>)
    ensures
        forall|i: int|
            0 <= i < samples.len() ==> amplitude(#[trigger] samples[i]) <= peak(samples),
        samples.len() > 0 ==> exists|i: int|
            0 <= i < samples.len() && amplitude(#[trigger] samples[i]) == peak(samples),
        peak(samples) <= 128,
    decreases samples.len(),
{
    if samples.len() > 0 {
        let front = samples.drop_last();
        law_peak(front);
        assert(forall|i: int| 0 <= i < front.len() ==> #[trigger] samples[i] == front[i]);
        if amplitude(samples.last()) > peak(front) || front.len() == 0 {
            assert(amplitude(samples[samples.len() - 1]) == peak(samples));
        } else {
            let i = choose|i: int|
                0 <= i < front.len() && amplitude(#[trigger] front[i]) == peak(front);
            assert(amplitude(samples[i]) == peak(samples));
        }
    }
}

/// The number of dots to draw for a peak: one for each 20, four at most.
pub open spec fn level(peak: nat) -> int {
    if peak / 20 < 4 {
        (peak / 20) as int
    } else {
        4
    }
}

/// The dots of the top row for one column: the first half of the samples on
/// the left, the second half on the right.
pub open spec fn top_dots(column: Seq<u8>) -> u8 {
    let half = SAMPLES_PER_COL as int / 2;
    TLF@[level(peak(column.take(half)))] | TRF@[level(peak(column.skip(half)))]
}

/// The dots of the bottom row for one column.
pub open spec fn bottom_dots(column: Seq<u8>) -> u8 {
    let half = SAMPLES_PER_COL as int / 2;
    BLF@[level(peak(column.take(half)))] | BRF@[level(peak(column.skip(half)))]
}

/// How many whole columns some samples make.
pub open spec fn column_count(samples: Seq<u8>) -> nat {
    samples.len() / SAMPLES_PER_COL as nat
}

/// The samples of the `k`-th column.
pub open spec fn column(samples: Seq<u8>, k: int) -> Seq<u8> {
    samples.subrange(SAMPLES_PER_COL * k, SAMPLES_PER_COL * k + SAMPLES_PER_COL)
}

/// The top dots of all whole columns.
pub open spec fn top_row(samples: Seq<u8>) -> Seq<u8> {
    Seq::new(column_count(samples), |k: int| top_dots(column(samples, k)))
}

/// The bottom dots of all whole columns.
pub open spec fn bottom_row(samples: Seq<u8>) -> Seq<u8> {
    Seq::new(column_count(samples), |k: int| bottom_dots(column(samples, k)))
}

/// The samples behind the last whole column.
pub open spec fn remainder(samples: Seq<u8>) -> Seq<u8> {
    samples.skip(SAMPLES_PER_COL * column_count(samples))
}

/// The last `n` items, or all if there are fewer.
pub open spec fn newest(row: Seq<u8>, n: nat) -> Seq<u8> {
    if row.len() <= n {
        row
    } else {
        row.skip(row.len() - n)
    }
}

/// What the meter shows and what it waits for: the dots of its columns, and
/// the samples that do not fill a column yet.
pub struct WaveState {
    pub pending: Seq<u8>,
    pub top: Seq<u8>,
    pub bottom: Seq<u8>,
}

/// The meter after more samples: every column that they complete is added on
/// the right, and the oldest columns fall off on the left.
pub open spec fn fed(s: WaveState, samples: Seq<u8>) -> WaveState {
    let input = s.pending + samples;
    WaveState {
        pending: remainder(input),
        top: newest(s.top + top_row(input), WAVE_BUFFER_COLS as nat),
        bottom: newest(s.bottom + bottom_row(input), WAVE_BUFFER_COLS as nat),
    }
}

/// The meter, fed with unsigned 8-bit mono samples.
#[derive(Debug)]
pub struct Waveform {
    pub samples: Vec<u8>,
    pub top_buf: Vec<u8>,
    pub bot_buf: Vec<u8>,
}

/// The two rows of glyphs that the meter shows.
#[derive(PartialEq, Eq, Debug)]
pub struct WaveFrame {
    pub top: String,
    pub bot: String,
}

/// What comes of one read from the decoder.
#[derive(PartialEq, Eq, Debug)]
pub enum WaveStep {
    /// Read on.
    Continue,
    /// Show this frame, and read on.
    Send(WaveFrame),
    /// The stream is over.
    Finished,
}

/// The largest amplitude in `samples[from..to]`.
fn loudest(samples: &Vec<u8>, from: usize, to: usize) -> (max: u8)
    requires
        from <= to <= samples@.len(),
    ensures
        max == peak(samples@.subrange(from as int, to as int)),
        max <= 128,
{
    let mut max: u8 = 0;
    let mut i: usize = from;
    assert(samples@.subrange(from as int, from as int) =~= Seq::<u8>::empty());
    while i < to
        invariant
            from <= i <= to <= samples@.len(),
            max == peak(samples@.subrange(from as int, i as int)),
            max <= 128,
        decreases to - i,
    {
        let sample: u8 = samples[i];
        let a: u8 = if sample >= 128 {
            sample - 128
        } else {
            128 - sample
        };
        let ghost seen = samples@.subrange(from as int, i + 1);
        assert(seen.drop_last() =~= samples@.subrange(from as int, i as int));
        if a > max {
            max = a;
        }
        i = i + 1;
    }
    max
}

/// The level for a peak, as an index.
fn level_index(peak: u8) -> (index: usize)
    ensures
        index == level(peak as nat),
        index < 5,
{
    let level: usize = (peak as usize * 4) / 80;
    if level < 4 {
        level
    } else {
        4
    }
}

/// Removes the first `n` items.
fn drop_front(buf: &mut Vec<u8>, n: usize)
    requires
        n <= old(buf)@.len(),
    ensures
        final(buf)@ == old(buf)@.skip(n as int),
{
    let tail: Vec<u8> = buf.split_off(n);
    *buf = tail;
}

/// Adds a glyph on the right of a row, and drops the oldest if it gets long.
fn push_glyph(buf: &mut Vec<u8>, dots: u8)
    requires
        old(buf)@ == glyph_bytes(drawn_dots(old(buf)@)),
        drawn_dots(old(buf)@).len() <= WAVE_BUFFER_COLS,
    ensures
        final(buf)@ == glyph_bytes(drawn_dots(final(buf)@)),
        drawn_dots(final(buf)@) == newest(
            drawn_dots(old(buf)@).push(dots),
            WAVE_BUFFER_COLS as nat,
        ),
{
    let ghost row = drawn_dots(buf@);
    let ghost grown = row.push(dots);
    let code: [u8; 3] = braille_char(dots);
    buf.push(code[0]);
    buf.push(code[1]);
    buf.push(code[2]);
    proof {
        lemma_push_glyph(row, dots);
        assert(buf@ =~= glyph_bytes(row) + glyph_code(dots));
        law_drawing_is_text(grown);
    }
    let max_bytes: usize = WAVE_BUFFER_COLS * 3;
    if buf.len() > max_bytes {
        let excess: usize = buf.len() - max_bytes;
        proof {
            lemma_skip_glyphs(grown, 1);
            law_drawing_is_text(grown.skip(1));
        }
        drop_front(buf, excess);
    }
}

proof fn lemma_push_glyph(row: Seq<u8>, dots: u8)
    ensures
        glyph_bytes(row.push(dots)) == glyph_bytes(row) + glyph_code(dots),
{
    reveal(glyph_bytes);
    let grown = row.push(dots);
    let bytes = glyph_bytes(grown);
    let joined = glyph_bytes(row) + glyph_code(dots);
    let n = row.len() as int;
    assert forall|j: int| 0 <= j < bytes.len() implies #[trigger] bytes[j] == joined[j] by {
        if j < 3 * n {
            assert(j / 3 < n);
            assert(grown[j / 3] == row[j / 3]);
        } else {
            assert(j / 3 == n && j % 3 == j - 3 * n);
        }
    }
    assert(bytes =~= joined);
}

proof fn lemma_skip_glyphs(row: Seq<u8>, k: int)
    requires
        0 <= k <= row.len(),
    ensures
        glyph_bytes(row).skip(3 * k) == glyph_bytes(row.skip(k)),
{
    reveal(glyph_bytes);
    let bytes = glyph_bytes(row).skip(3 * k);
    let rest = glyph_bytes(row.skip(k));
    assert forall|j: int| 0 <= j < bytes.len() implies #[trigger] bytes[j] == rest[j] by {
        assert((j + 3 * k) / 3 == j / 3 + k && (j + 3 * k) % 3 == j % 3);
        assert(row.skip(k)[j / 3] == row[j / 3 + k]);
    }
    assert(bytes =~= rest);
}

impl View for Waveform {
    type V = WaveState;

    open spec fn view(&self) -> WaveState {
        WaveState {
            pending: self.samples@,
            top: drawn_dots(self.top_buf@),
            bottom: drawn_dots(self.bot_buf@),
        }
    }
}

impl Waveform {
    /// Both rows are drawings with the same, bounded number of columns, and
    /// the pending samples do not fill a column.
    pub open spec fn wf(&self) -> bool {
        &&& self.samples@.len() < SAMPLES_PER_COL
        &&& self.top_buf@ == glyph_bytes(self@.top)
        &&& self.bot_buf@ == glyph_bytes(self@.bottom)
        &&& self@.top.len() == self@.bottom.len()
        &&& self@.top.len() <= WAVE_BUFFER_COLS
    }

    /// A meter that has heard nothing.
    pub fn new() -> (wave: Waveform)
        ensures
            wave.wf(),
            wave@ == (WaveState {
                pending: Seq::empty(),
                top: Seq::empty(),
                bottom: Seq::empty(),
            }),
    {
        let wave: Waveform = Waveform {
            samples: Vec::new(),
            top_buf: Vec::new(),
            bot_buf: Vec::new(),
        };
        proof {
            law_drawing_is_text(Seq::empty());
            assert(glyph_bytes(Seq::empty()) =~= Seq::<u8>::empty());
        }
        wave
    }

    /// Takes samples, and tells whether they completed a column.
    pub fn feed(&mut self, chunk: &[u8]) -> (changed: bool)
        requires
            old(self).wf(),
        ensures
            final(self).wf(),
            final(self)@ == fed(old(self)@, chunk@),
            changed == (column_count(old(self)@.pending + chunk@) > 0),
    {
        let ghost start = self@;
        let ghost input = self.samples@ + chunk@;
        let ghost mut k: int = 0;
        self.samples.extend_from_slice(chunk);
        assert(self.samples@ =~= input);
        assert(input.skip(0) =~= input);
        assert(start.top + top_row(input).take(0) =~= start.top);
        assert(start.bottom + bottom_row(input).take(0) =~= start.bottom);
        let mut changed: bool = false;
        while self.samples.len() >= SAMPLES_PER_COL
            invariant
                0 <= k <= column_count(input),
                changed == (k > 0),
                self.samples@ == input.skip(SAMPLES_PER_COL * k),
                self.top_buf@ == glyph_bytes(self@.top),
                self.bot_buf@ == glyph_bytes(self@.bottom),
                self@.top.len() <= WAVE_BUFFER_COLS,
                self@.bottom.len() <= WAVE_BUFFER_COLS,
                start.top.len() == start.bottom.len(),
                self@.top == newest(
                    start.top + top_row(input).take(k),
                    WAVE_BUFFER_COLS as nat,
                ),
                self@.bottom == newest(
                    start.bottom + bottom_row(input).take(k),
                    WAVE_BUFFER_COLS as nat,
                ),
            decreases self.samples@.len(),
        {
            let half: usize = SAMPLES_PER_COL / 2;
            let ghost samples = self.samples@;
            let left: u8 = loudest(&self.samples, 0, half);
            let right: u8 = loudest(&self.samples, half, SAMPLES_PER_COL);
            let ll: usize = level_index(left);
            let rl: usize = level_index(right);
            let top: u8 = TLF[ll] | TRF[rl];
            let bottom: u8 = BLF[ll] | BRF[rl];
            proof {
                let col = column(input, k);
                assert(samples.subrange(0, half as int) =~= col.take(half as int));
                assert(samples.subrange(half as int, SAMPLES_PER_COL as int) =~= col.skip(
                    half as int,
                ));
                lemma_newest_push(start.top, top_row(input), k);
                lemma_newest_push(start.bottom, bottom_row(input), k);
                assert(samples.skip(SAMPLES_PER_COL as int) =~= input.skip(
                    SAMPLES_PER_COL * (k + 1),
                ));
            }
            drop_front(&mut self.samples, SAMPLES_PER_COL);
            push_glyph(&mut self.top_buf, top);
            push_glyph(&mut self.bot_buf, bottom);
            changed = true;
            proof {
                k = k + 1;
            }
        }
        assert(k == column_count(input));
        assert(top_row(input).take(k) =~= top_row(input));
        assert(bottom_row(input).take(k) =~= bottom_row(input));
        changed
    }

    /// The two rows as the meter shows them.
    pub fn frame(&self) -> (frame: WaveFrame)
        requires
            self.wf(),
        ensures
            frame.top@ == glyph_text(self@.top),
            frame.bot@ == glyph_text(self@.bottom),
            is_glyph_text(frame.top@) && is_glyph_text(frame.bot@),
    {
        proof {
            law_drawing_is_text(self@.top);
            law_drawing_is_text(self@.bottom);
        }
        WaveFrame { top: row_text(&self.top_buf), bot: row_text(&self.bot_buf) }
    }

    /// Takes what one read from the decoder gave: some samples, or none at the
    /// end of the stream, or no answer at all. `idle_millis` is the time since
    /// the last frame; frames that would follow too closely are left out.
    pub fn on_read(&mut self, data: Option<&[u8]>, idle_millis: u64) -> (step: WaveStep)
        requires
            old(self).wf(),
        ensures
            final(self).wf(),
            (data is None || data.unwrap()@.len() == 0) ==> step is Finished && *final(self)
                == *old(self),
            (data matches Some(chunk) && chunk@.len() > 0) ==> {
                let input = old(self)@.pending + data.unwrap()@;
                &&& final(self)@ == fed(old(self)@, data.unwrap()@)
                &&& step !is Finished
                &&& step is Send <==> column_count(input) > 0 && idle_millis >= FRAME_MILLIS
                &&& step matches WaveStep::Send(frame) ==> frame.top@ == glyph_text(
                    final(self)@.top,
                ) && frame.bot@ == glyph_text(final(self)@.bottom) && is_glyph_text(frame.top@)
                    && is_glyph_text(frame.bot@)
            },
    {
        match data {
            None => WaveStep::Finished,
            Some(chunk) => {
                if chunk.len() == 0 {
                    return WaveStep::Finished;
                }
                let changed: bool = self.feed(chunk);
                if changed && idle_millis >= FRAME_MILLIS {
                    WaveStep::Send(self.frame())
                } else {
                    WaveStep::Continue
                }
            },
        }
    }
}

/// A row of glyphs as text.
fn row_text(buf: &Vec<u8>) -> (text: String)
    requires
        buf@ == glyph_bytes(drawn_dots(buf@)),
    ensures
        text@ == glyph_text(drawn_dots(buf@)),
{
    let ghost glyphs = glyph_text(drawn_dots(buf@));
    let bytes: Vec<u8> = buf.clone();
    proof {
        law_drawing_is_text(drawn_dots(buf@));
        encode_utf8_valid_utf8(glyphs);
        encode_utf8_decode_utf8(glyphs);
        assert(bytes@ =~= buf@);
    }
    match from_utf8(bytes) {
        Some(text) => {
            proof {
                encode_utf8_decode_utf8(text@);
            }
            text
        },
        None => String::new(),
    }
}

proof fn lemma_newest_push(row: Seq<u8>, new: Seq<u8>, k: int)
    requires
        0 <= k < new.len(),
    ensures
        newest(
            newest(row + new.take(k), WAVE_BUFFER_COLS as nat).push(new[k]),
            WAVE_BUFFER_COLS as nat,
        ) == newest(row + new.take(k + 1), WAVE_BUFFER_COLS as nat),
{
    assert(newest(
        newest(row + new.take(k), WAVE_BUFFER_COLS as nat).push(new[k]),
        WAVE_BUFFER_COLS as nat,
    ) =~= newest(row + new.take(k + 1), WAVE_BUFFER_COLS as nat));
}

proof fn lemma_newest_twice(row: Seq<u8>, a: Seq<u8>, b: Seq<u8>)
    ensures
        newest(newest(row + a, WAVE_BUFFER_COLS as nat) + b, WAVE_BUFFER_COLS as nat) == newest(
            row + (a + b),
            WAVE_BUFFER_COLS as nat,
        ),
{
    assert(newest(newest(row + a, WAVE_BUFFER_COLS as nat) + b, WAVE_BUFFER_COLS as nat)
        =~= newest(row + (a + b), WAVE_BUFFER_COLS as nat));
}

/// It does not matter in what pieces the samples arrive: two pieces one after
/// the other leave the meter as the two joined do.
pub proof fn law_pieces_do_not_matter(s: WaveState, a: Seq<u8>, b: Seq<u8>)
    ensures
        fed(fed(s, a), b) == fed(s, a + b),
{
    let first = s.pending + a;
    let second = remainder(first) + b;
    let whole = s.pending + (a + b);
    let n = column_count(first) as int;
    assert(whole =~= first + b);
    assert(whole.skip(SAMPLES_PER_COL * n) =~= second);
    assert(whole.len() == SAMPLES_PER_COL * n + second.len());
    assert(column_count(whole) == n + column_count(second));
    assert forall|k: int| 0 <= k < n implies column(whole, k) == #[trigger] column(first, k) by {
        assert(column(whole, k) =~= column(first, k));
    }
    assert forall|k: int| 0 <= k < column_count(second) implies column(whole, n + k)
        == #[trigger] column(second, k) by {
        assert(column(whole, n + k) =~= column(second, k));
    }
    assert(top_row(whole) =~= top_row(first) + top_row(second)) by {
        assert forall|k: int| 0 <= k < top_row(whole).len() implies #[trigger] top_row(whole)[k]
            == (top_row(first) + top_row(second))[k] by {
            if k < n {
                assert(column(whole, k) == column(first, k));
            } else {
                assert(column(whole, n + (k - n)) == column(second, k - n));
            }
        }
    }
    assert(bottom_row(whole) =~= bottom_row(first) + bottom_row(second)) by {
        assert forall|k: int| 0 <= k < bottom_row(whole).len() implies #[trigger] bottom_row(
            whole,
        )[k] == (bottom_row(first) + bottom_row(second))[k] by {
            if k < n {
                assert(column(whole, k) == column(first, k));
            } else {
                assert(column(whole, n + (k - n)) == column(second, k - n));
            }
        }
    }
    assert(remainder(whole) =~= remainder(second));
    lemma_newest_twice(s.top, top_row(first), top_row(second));
    lemma_newest_twice(s.bottom, bottom_row(first), bottom_row(second));
}

/// Each braille glyph is three bytes wide: a text of glyphs can be cut at
/// every multiple of three, and the parts are texts of glyphs again.
pub proof fn law_glyph_text_cuts(s: Seq<char>, k: int)
    requires
        is_glyph_text(s),
        0 <= k <= s.len(),
    ensures
        encode_utf8(s).len() == 3 * s.len(),
        is_char_boundary(encode_utf8(s), 3 * k),
        encode_utf8(s).skip(3 * k) == encode_utf8(s.skip(k)),
        is_glyph_text(s.skip(k)),
    decreases s.len(),
{
    let bytes = encode_utf8(s);
    encode_utf8_valid_utf8(s);
    if s.len() > 0 {
        let rest = s.drop_first();
        assert(encode_scalar(s[0] as u32).len() == 3);
        encode_utf8_first_scalar(s);
        assert(pop_first_scalar(bytes) =~= encode_utf8(rest));
        assert forall|i: int| 0 <= i < rest.len() implies 0x2800 <= (#[trigger] rest[i]) as u32
            <= 0x28FF by {
            assert(rest[i] == s[i + 1]);
        }
        if k > 0 {
            law_glyph_text_cuts(rest, k - 1);
            assert(bytes.skip(3 * k) =~= encode_utf8(rest).skip(3 * (k - 1)));
            assert(s.skip(k) =~= rest.skip(k - 1));
        } else {
            law_glyph_text_cuts(rest, 0);
            assert(bytes.skip(0) =~= bytes);
            assert(s.skip(0) =~= s);
        }
    } else {
        assert(bytes.skip(0) =~= bytes);
        assert(s.skip(0) =~= s);
    }
}

} // verus!
