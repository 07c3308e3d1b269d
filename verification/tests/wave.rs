use radio::wave::{braille_char, WaveStep, Waveform, SAMPLES_PER_COL, WAVE_BUFFER_COLS};

/// One column: `left` and `right` as distances from silence.
fn column(left: u8, right: u8) -> Vec<u8> {
    let mut samples = vec![128u8; SAMPLES_PER_COL];
    samples[10] = 128 - left;
    samples[70] = if right == 128 { 0 } else { 128 + right };
    samples
}

fn drawn(samples: &[u8]) -> (String, String) {
    let mut wave = Waveform::new();
    wave.feed(samples);
    let frame = wave.frame();
    (frame.top, frame.bot)
}

#[test]
fn braille_chars_are_encoded() {
    for b in 0..=255u8 {
        let c = char::from_u32(0x2800 + b as u32).unwrap();
        let mut buf = [0u8; 4];
        assert_eq!(braille_char(b), c.encode_utf8(&mut buf).as_bytes());
    }
    assert_eq!(braille_char(0x47), [0xE2, 0xA1, 0x87]);
}

#[test]
fn silence_draws_empty_glyphs() {
    assert_eq!(drawn(&column(0, 0)), ("\u{2800}".to_string(), "\u{2800}".to_string()));
    assert_eq!(drawn(&[128; 119]), (String::new(), String::new()));
}

#[test]
fn levels_follow_the_peaks() {
    let top_left = [0u8, 0x40, 0x44, 0x46, 0x47];
    let top_right = [0u8, 0x80, 0xA0, 0xB0, 0xB8];
    let bot_left = [0u8, 0x01, 0x03, 0x07, 0x47];
    let bot_right = [0u8, 0x08, 0x18, 0x38, 0xB8];
    for (l, ll) in [(0, 0), (19, 0), (20, 1), (39, 1), (40, 2), (60, 3), (79, 3), (80, 4), (128, 4)] {
        for (r, rl) in [(0, 0), (20, 1), (59, 2), (60, 3), (127, 4), (128, 4)] {
            let (top, bot) = drawn(&column(l, r));
            let t: usize = ll;
            let u: usize = rl;
            let top_dots = (top_left[t] | top_right[u]) as u32;
            let bot_dots = (bot_left[t] | bot_right[u]) as u32;
            assert_eq!(top, char::from_u32(0x2800 + top_dots).unwrap().to_string());
            assert_eq!(bot, char::from_u32(0x2800 + bot_dots).unwrap().to_string());
        }
    }
}

#[test]
fn pieces_do_not_matter() {
    let samples: Vec<u8> = (0..5000u32).map(|i| (i * 7 % 256) as u8).collect();
    let whole = drawn(&samples);
    for size in [1usize, 7, 119, 120, 121, 4096] {
        let mut wave = Waveform::new();
        for piece in samples.chunks(size) {
            wave.feed(piece);
        }
        let frame = wave.frame();
        assert_eq!((frame.top, frame.bot), whole, "pieces of {}", size);
    }
    assert_eq!(whole.0.chars().count(), 5000 / SAMPLES_PER_COL);
}

#[test]
fn only_the_newest_columns_are_kept() {
    let mut samples = column(100, 0);
    for _ in 0..WAVE_BUFFER_COLS {
        samples.extend(column(0, 100));
    }
    let mut wave = Waveform::new();
    assert!(wave.feed(&samples));
    let frame = wave.frame();
    assert_eq!(frame.top, "\u{28B8}".repeat(WAVE_BUFFER_COLS));
    assert_eq!(frame.bot, "\u{28B8}".repeat(WAVE_BUFFER_COLS));
    assert_eq!(wave.top_buf.len(), 3 * WAVE_BUFFER_COLS);
    assert!(wave.samples.is_empty());
}

#[test]
fn frames_are_held_back() {
    let mut wave = Waveform::new();
    assert_eq!(wave.on_read(Some(&[128; 100]), 1000), WaveStep::Continue);
    assert_eq!(wave.on_read(Some(&[128; 20]), 15), WaveStep::Continue);
    assert_eq!(wave.on_read(Some(&[128; 20]), 16), WaveStep::Continue);
    match wave.on_read(Some(&[128; 100]), 16) {
        WaveStep::Send(frame) => {
            assert_eq!(frame.top, "\u{2800}\u{2800}");
            assert_eq!(frame.bot, "\u{2800}\u{2800}");
        }
        other => panic!("{:?}", other),
    }
}

#[test]
fn the_end_of_the_stream_is_noticed() {
    let mut wave = Waveform::new();
    wave.feed(&column(100, 100));
    assert_eq!(wave.on_read(Some(&[]), 1000), WaveStep::Finished);
    assert_eq!(wave.on_read(None, 1000), WaveStep::Finished);
    assert_eq!(wave.frame().top.chars().count(), 1);
}
