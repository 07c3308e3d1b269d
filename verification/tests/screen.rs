use radio::player::{App, AppEvent, ChildState, Key, KeyCode, KeyKind};
use radio::screen::{
    refresh, render, render_footer, render_header, Attribute, Canvas, Color, DrawOp, HINTS,
};
use radio::station::stations;
use radio::wave::WaveFrame;

fn player(columns: u16, rows: u16) -> App<u32> {
    App::new(stations(), Some((columns, rows)), Some(50))
}

fn press(app: &mut App<u32>, code: KeyCode) {
    app.handle_key(Key { code, modifiers: 0, kind: KeyKind::Press });
}

fn play(app: &mut App<u32>, idx: usize) {
    app.start_playback(idx, ChildState::Exited);
    app.launched(idx, 1);
}

fn show_wave(app: &mut App<u32>, top: &str, bot: &str) {
    app.handle_event(AppEvent::Wave(WaveFrame { top: top.to_string(), bot: bot.to_string() }));
}

fn print(text: &str) -> DrawOp {
    DrawOp::Print(text.to_string())
}

/// The screen as a terminal would show it, row by row.
fn shown(app: &App<u32>) -> Vec<String> {
    let (columns, rows) = app.term_size;
    let mut grid = vec![vec!['#'; columns as usize]; rows as usize];
    let (mut x, mut y) = (0usize, 0usize);
    for op in render(app).ops {
        match op {
            DrawOp::MoveTo(column, row) => {
                x = column as usize;
                y = row as usize;
            }
            DrawOp::Print(text) => {
                for c in text.chars() {
                    if x < columns as usize {
                        grid[y][x] = c;
                    }
                    x += 1;
                }
            }
            DrawOp::ClearLine => {
                for cell in grid[y].iter_mut().skip(x) {
                    *cell = ' ';
                }
            }
            DrawOp::ClearAll => panic!("not part of a frame"),
            _ => {}
        }
    }
    grid.iter().map(|row| row.iter().collect::<String>().trim_end().to_string()).collect()
}

#[test]
fn wave_has_room_behind_column_48() {
    for (columns, width) in [(0, 0), (54, 0), (55, 7), (80, 32), (248, 200), (249, 200), (65535, 200)] {
        assert_eq!(player(columns, 24).vu_width(), width);
    }
}

#[test]
fn waves_are_cut_to_their_newest_glyphs() {
    let wave: String = (0..40u32).map(|i| char::from_u32(0x2800 + i).unwrap()).collect();
    let app = player(80, 24);
    let cut = app.truncate_wave(&wave);
    assert_eq!(cut.chars().count(), 32);
    assert!(wave.ends_with(&cut));
    assert_eq!(player(100, 24).truncate_wave(&wave), wave);
    assert_eq!(player(50, 24).truncate_wave(&wave), "");
    assert_eq!(app.truncate_wave(""), "");
    assert_eq!(app.truncate_wave("abc"), "abc");
}

#[test]
fn header_shows_volume_and_station() {
    let mut app = player(60, 24);
    let mut out = Canvas::new();
    render_header(&app, &mut out);
    assert_eq!(
        out.ops,
        vec![
            DrawOp::MoveTo(0, 0),
            DrawOp::SetAttribute(Attribute::Reverse),
            DrawOp::SetAttribute(Attribute::Bold),
            print(&" ".repeat(60)),
            DrawOp::MoveTo(0, 0),
            print(" RADIO  Vol: 50"),
            DrawOp::SetAttribute(Attribute::Reset),
            DrawOp::ResetColor,
        ]
    );
    play(&mut app, 15);
    app.metadata = Some("a — b".to_string());
    press(&mut app, KeyCode::Char('p'));
    let mut out = Canvas::new();
    render_header(&app, &mut out);
    let right = "  KEXP — a — b [paused] ";
    assert_eq!(
        out.ops[6..9],
        [
            DrawOp::MoveTo(60 - right.chars().count() as u16, 0),
            DrawOp::Foreground(Color::Green),
            print(right),
        ]
    );
}

#[test]
fn header_leaves_out_what_has_no_room() {
    let mut app = player(23, 24);
    play(&mut app, 15);
    let mut out = Canvas::new();
    render_header(&app, &mut out);
    // " RADIO  Vol: 50" has 15 characters, "  KEXP " has 7.
    assert_eq!(out.ops[6], DrawOp::MoveTo(16, 0));
    app.term_size = (22, 24);
    let mut out = Canvas::new();
    render_header(&app, &mut out);
    assert_eq!(out.ops.len(), 8);
    app.term_size = (0, 24);
    let mut out = Canvas::new();
    render_header(&app, &mut out);
    assert!(out.ops.is_empty());
    app.term_size = (60, 24);
    app.volume = None;
    let mut out = Canvas::new();
    render_header(&app, &mut out);
    assert_eq!(out.ops[5], print(" RADIO"));
}

#[test]
fn header_counts_columns_of_wide_titles() {
    let mut app = player(80, 24);
    app.volume = None;
    play(&mut app, 15);
    app.metadata = Some("東京".to_string());
    let mut out = Canvas::new();
    render_header(&app, &mut out);
    // "  KEXP — 東京 " has 12 characters and takes 14 columns.
    assert_eq!(out.ops[6], DrawOp::MoveTo(66, 0));
    assert_eq!(out.ops[8], print("  KEXP — 東京 "));
    // " RADIO" takes 6 columns.
    app.term_size = (21, 24);
    let mut out = Canvas::new();
    render_header(&app, &mut out);
    assert_eq!(out.ops[6], DrawOp::MoveTo(7, 0));
    app.term_size = (20, 24);
    let mut out = Canvas::new();
    render_header(&app, &mut out);
    assert_eq!(out.ops.len(), 8);
}

#[test]
fn header_counts_one_column_for_narrow_symbols() {
    let mut app = player(80, 24);
    app.volume = None;
    play(&mut app, 15);
    // Each title has two characters and takes two columns.
    for title in ["\u{1F1EB}\u{1F1F7}", "\u{1F399}\u{1FA00}", "\u{304B}\u{3099}", "⚡\u{FE0F}"] {
        app.metadata = Some(title.to_string());
        app.term_size = (80, 24);
        let mut out = Canvas::new();
        render_header(&app, &mut out);
        assert_eq!(out.ops[6], DrawOp::MoveTo(68, 0));
        assert_eq!(out.ops[8], print(&format!("  KEXP — {} ", title)));
        app.term_size = (19, 24);
        let mut out = Canvas::new();
        render_header(&app, &mut out);
        assert_eq!(out.ops[6], DrawOp::MoveTo(7, 0));
        app.term_size = (18, 24);
        let mut out = Canvas::new();
        render_header(&app, &mut out);
        assert_eq!(out.ops.len(), 8);
    }
}

/// The commands without the four that draw each row of the waveform.
fn without_waves(ops: Vec<DrawOp>) -> Vec<DrawOp> {
    let mut kept = Vec::new();
    let mut skip = 0;
    for op in ops {
        if let DrawOp::MoveTo(47, row) = op {
            if row >= 2 {
                skip = 4;
            }
        }
        if skip > 0 {
            skip -= 1;
        } else {
            kept.push(op);
        }
    }
    kept
}

#[test]
fn a_waveform_moves_nothing() {
    for rows in [5, 6, 7, 24] {
        let mut app = player(80, rows);
        press(&mut app, KeyCode::Down);
        press(&mut app, KeyCode::Enter);
        let first = app.expanded[0];
        play(&mut app, first);
        let silent = render(&app).ops;
        show_wave(&mut app, "\u{28FF}\u{2847}", "");
        let one = render(&app).ops;
        show_wave(&mut app, "\u{28FF}\u{2847}", "\u{28FF}\u{2847}");
        let both = render(&app).ops;
        assert!(one.len() >= silent.len() && both.len() >= one.len());
        if rows == 24 {
            assert_eq!(one.len(), silent.len() + 4);
            assert_eq!(both.len(), silent.len() + 8);
        }
        assert_eq!(without_waves(one), silent);
        assert_eq!(without_waves(both), silent);
    }
}

#[test]
fn the_list_stays_between_header_and_footer() {
    for rows in [1, 2, 3, 4, 6, 10, 24] {
        let mut app = player(80, rows);
        press(&mut app, KeyCode::Enter);
        let mut header = Canvas::new();
        render_header(&app, &mut header);
        let ops = render(&app).ops;
        let list = &ops[1 + header.ops.len()..ops.len() - 6];
        for op in list {
            if let DrawOp::MoveTo(_, row) = op {
                assert!(2 <= *row && *row < rows - 1, "row {} of {}", row, rows);
            }
        }
        assert_eq!(list.is_empty(), rows < 4);
    }
}

#[test]
fn footer_fills_the_last_row() {
    let mut out = Canvas::new();
    render_footer(&player(70, 24), &mut out);
    assert_eq!(
        out.ops,
        vec![
            DrawOp::MoveTo(0, 23),
            DrawOp::SetAttribute(Attribute::Reverse),
            DrawOp::SetAttribute(Attribute::Dim),
            print(" j/k:nav  enter:select  b:back  s:stop  p:pause  +/-:vol  q:quit"),
            print(&" ".repeat(70 - HINTS.len())),
            DrawOp::ResetColor,
        ]
    );
    let mut out = Canvas::new();
    render_footer(&player(10, 0), &mut out);
    assert_eq!(out.ops[0], DrawOp::MoveTo(0, 0));
    assert_eq!(out.ops[4], print(""));
}

#[test]
fn category_under_the_cursor_is_marked() {
    let app = player(80, 24);
    let ops = render(&app).ops;
    let at = ops.iter().position(|op| *op == DrawOp::MoveTo(0, 2)).unwrap();
    assert_eq!(
        ops[at..at + 15],
        [
            DrawOp::MoveTo(0, 2),
            print("  "),
            DrawOp::Foreground(Color::Cyan),
            print(">"),
            DrawOp::ResetColor,
            print(" "),
            DrawOp::SetAttribute(Attribute::Bold),
            DrawOp::Foreground(Color::White),
            print(&format!("▾ {:<28}", "BBC")),
            DrawOp::ResetColor,
            print("  "),
            DrawOp::SetAttribute(Attribute::Dim),
            print("1"),
            DrawOp::ResetColor,
            DrawOp::ClearLine,
        ]
    );
    let at = ops.iter().rposition(|op| *op == DrawOp::MoveTo(0, 4)).unwrap();
    assert_eq!(
        ops[at..at + 6],
        [
            DrawOp::MoveTo(0, 4),
            print(&format!("   ▸ {:<28}  ", "FIP")),
            DrawOp::SetAttribute(Attribute::Dim),
            print("10"),
            DrawOp::ResetColor,
            DrawOp::ClearLine,
        ]
    );
}

#[test]
fn screen_lists_categories_and_stations() {
    let app = player(80, 14);
    let rows = shown(&app);
    assert_eq!(rows[0], " RADIO  Vol: 50");
    assert_eq!(rows[2], format!("  > ▾ {:<28}  1", "BBC"));
    assert_eq!(rows[3], format!("     {:<30} AAC 320k", "BBC 6 Music"));
    assert_eq!(rows[4], format!("   ▸ {:<28}  10", "FIP"));
    assert_eq!(rows[10], format!("   ▸ {:<28}  1", "WFMU"));
    assert_eq!(rows[11], "");
    assert_eq!(rows[12], "");
    assert_eq!(rows[13], HINTS);
}

#[test]
fn station_under_the_cursor_shows_its_description() {
    let mut app = player(80, 24);
    press(&mut app, KeyCode::Tab);
    let rows = shown(&app);
    assert_eq!(rows[2], format!("   ▾ {:<28}  1", "BBC"));
    assert_eq!(rows[3], format!("    > {:<30} AAC 320k", "BBC 6 Music"));
    assert_eq!(rows[4], "      Alternative music station");
    assert_eq!(rows[5], format!("   ▸ {:<28}  10", "FIP"));
}

#[test]
fn playing_station_shows_the_waveform() {
    let mut app = player(55, 24);
    play(&mut app, 0);
    let wave: String = (0..9u32).map(|i| char::from_u32(0x2801 + i).unwrap()).collect();
    show_wave(&mut app, &wave, "\u{2847}");
    let rows = shown(&app);
    let newest: String = wave.chars().skip(2).collect();
    assert_eq!(rows[3], format!("{:<47}{}", format!("     {:<30} AAC 320k ▶", "BBC 6 Music"), newest));
    assert_eq!(rows[4], format!("{:<47}\u{2847}", ""));
    assert_eq!(rows[5], format!("   ▸ {:<28}  10", "FIP"));
    press(&mut app, KeyCode::Char('p'));
    assert!(shown(&app)[3].contains(" ▐▐"));
}

#[test]
fn waveform_keeps_an_empty_row_before_it_comes() {
    let mut app = player(80, 24);
    play(&mut app, 0);
    let rows = shown(&app);
    assert_eq!(rows[3], format!("     {:<30} AAC 320k ▶", "BBC 6 Music"));
    assert_eq!(rows[4], "");
    assert_eq!(rows[5], format!("   ▸ {:<28}  10", "FIP"));
}

#[test]
fn drawing_stays_on_a_small_screen() {
    for rows in 0..30u16 {
        let mut app = player(80, rows);
        press(&mut app, KeyCode::Char('j'));
        for _ in 0..4 {
            press(&mut app, KeyCode::Tab);
        }
        play(&mut app, 3);
        show_wave(&mut app, "\u{2847}", "\u{2847}");
        let limit = if rows == 0 { 1 } else { rows };
        for op in render(&app).ops {
            if let DrawOp::MoveTo(_, row) = op {
                assert!(row < limit, "row {} of {}", row, rows);
            }
        }
    }
}

#[test]
fn nothing_is_left_of_an_earlier_screen() {
    for rows in 1..30u16 {
        let mut app = player(80, rows);
        press(&mut app, KeyCode::Char('j'));
        press(&mut app, KeyCode::Tab);
        play(&mut app, 4);
        let grid = shown(&app);
        for line in grid.iter().skip(2) {
            assert!(!line.contains('#'), "{:?} with {} rows", line, rows);
        }
    }
}

#[test]
fn a_cut_off_station_keeps_its_name_row() {
    let app = player(80, 5);
    let rows = shown(&app);
    assert_eq!(rows[3], format!("     {:<30} AAC 320k", "BBC 6 Music"));
    assert_eq!(rows[4], HINTS);
}

#[test]
fn refreshing_clears_on_request() {
    let app = player(80, 24);
    let plain = refresh(&app, false).ops;
    let cleared = refresh(&app, true).ops;
    assert_eq!(plain, render(&app).ops);
    assert_eq!(cleared[0], DrawOp::ClearAll);
    assert_eq!(cleared[1..], plain[..]);
}
