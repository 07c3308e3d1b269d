//! What the player shows: the state of the player as drawing commands.

use vstd::prelude::*;
use vstd::utf8::{encode_utf8, encode_utf8_decode_utf8, is_char_boundary};
use crate::player::{lemma_shown, shown, App, AppState};
use crate::station::{categories, members, texts, Station};
use crate::text::{
    char_columns, decimal, law_text_columns, law_text_room, lemma_decimal_digits, padded,
    push_decimal, push_padded, push_spaces, room, spaces, text_columns, text_room,
};
use crate::wave::{glyph_text, is_glyph_text, law_glyph_text_cuts, newest};

verus! {

/// The column, counted from one, at which the waveform begins.
pub const WAVE_COL: u16 = 48;

/// A terminal with fewer columns shows no waveform.
pub const MIN_WAVE_COLS: u16 = 55;

/// The widest waveform.
pub const MAX_WAVE_WIDTH: u16 = 200;

/// The row of the first category.
pub const FIRST_ROW: u16 = 2;

/// The last line of the screen.
pub const HINTS: &'static str = " j/k:nav  enter:select  b:back  s:stop  p:pause  +/-:vol  q:quit";

/// The colors in use.
#[derive(Clone, Copy, PartialEq, Eq, Structural, Debug)]
pub enum Color {
    Cyan,
    White,
    Yellow,
    Green,
}

/// The attributes in use.
#[derive(Clone, Copy, PartialEq, Eq, Structural, Debug)]
pub enum Attribute {
    Bold,
    Dim,
    Reverse,
    Reset,
}

/// A drawing command for the terminal.
#[derive(PartialEq, Eq, Debug)]
pub enum DrawOp {
    /// Put the cursor at this column and row, both counted from zero.
    MoveTo(u16, u16),
    /// Write this text.
    Print(String),
    /// Write in this color from here on.
    Foreground(Color),
    /// Go back to the usual colors and attributes.
    ResetColor,
    /// Write with this attribute from here on.
    SetAttribute(Attribute),
    /// Clear the rest of the line.
    ClearLine,
    /// Clear the screen.
    ClearAll,
}

/// A drawing command, with its text as characters.
pub enum Draw {
    MoveTo(u16, u16),
    Print(Seq<char>),
    Foreground(Color),
    ResetColor,
    SetAttribute(Attribute),
    ClearLine,
    ClearAll,
}

impl View for DrawOp {
    type V = Draw;

    open spec fn view(&self) -> Draw {
        match *self {
            DrawOp::MoveTo(column, row) => Draw::MoveTo(column, row),
            DrawOp::Print(text) => Draw::Print(text@),
            DrawOp::Foreground(color) => Draw::Foreground(color),
            DrawOp::ResetColor => Draw::ResetColor,
            DrawOp::SetAttribute(attribute) => Draw::SetAttribute(attribute),
            DrawOp::ClearLine => Draw::ClearLine,
            DrawOp::ClearAll => Draw::ClearAll,
        }
    }
}

/// Drawing commands in the order in which they were given.
#[derive(PartialEq, Eq, Debug)]
pub struct Canvas {
    pub ops: Vec<DrawOp>,
}

impl View for Canvas {
    type V = Seq<Draw>;

    open spec fn view(&self) -> Seq<Draw> {
        self.ops@.map_values(|op: DrawOp| op@)
    }
}

impl Canvas {
    /// No commands.
    pub fn new() -> (canvas: Canvas)
        ensures
            canvas@ == Seq::<Draw>::empty(),
    {
        let canvas: Canvas = Canvas { ops: Vec::new() };
        assert(canvas@ =~= Seq::<Draw>::empty());
        canvas
    }

    /// Adds a command.
    pub fn add(&mut self, op: DrawOp)
        ensures
            final(self)@ == old(self)@.push(op@),
    {
        let ghost before = self@;
        self.ops.push(op);
        assert(self@ =~= before.push(op@));
    }

    /// Adds a command that writes a text.
    pub fn print(&mut self, text: &str)
        ensures
            final(self)@ == old(self)@.push(Draw::Print(text@)),
    {
        self.add(DrawOp::Print(String::from_str(text)));
    }
}

/// How many columns the waveform has on a terminal with so many columns.
pub open spec fn wave_width(columns: u16) -> nat {
    if columns < MIN_WAVE_COLS {
        0
    } else if columns - WAVE_COL > MAX_WAVE_WIDTH {
        MAX_WAVE_WIDTH as nat
    } else {
        (columns - WAVE_COL) as nat
    }
}

/// How many glyphs the bytes of a text make, at three bytes each.
pub open spec fn glyph_count(s: Seq<char>) -> int {
    encode_utf8(s).len() as int / 3
}

/// How many glyphs of a waveform are too many.
pub open spec fn excess_glyphs(s: Seq<char>, width: nat) -> int {
    if glyph_count(s) <= width {
        0
    } else {
        glyph_count(s) - width
    }
}

/// The newest part of a waveform: as many of its last glyphs as there is room
/// for.
pub open spec fn cut_wave(s: Seq<char>, width: nat) -> Seq<char> {
    if s.len() <= width {
        s
    } else {
        s.skip(s.len() - width)
    }
}

impl<A> App<A> {
    /// How many columns the waveform has.
    pub fn vu_width(&self) -> (width: u16)
        ensures
            width == wave_width(self@.size.0),
    {
        let columns: u16 = self.term_size.0;
        if columns < MIN_WAVE_COLS {
            return 0;
        }
        let width: u16 = columns - WAVE_COL;
        if width > MAX_WAVE_WIDTH {
            MAX_WAVE_WIDTH
        } else {
            width
        }
    }

    /// The end of a waveform, as far as there is room for it.
    pub fn truncate_wave(&self, s: &str) -> (cut: String)
        requires
            wave_width(self@.size.0) > 0 && excess_glyphs(s@, wave_width(self@.size.0)) > 0
                ==> is_char_boundary(
                encode_utf8(s@),
                3 * excess_glyphs(s@, wave_width(self@.size.0)),
            ),
        ensures
            wave_width(self@.size.0) == 0 ==> cut@ == Seq::<char>::empty(),
            wave_width(self@.size.0) > 0 ==> encode_utf8(cut@) == encode_utf8(s@).skip(
                3 * excess_glyphs(s@, wave_width(self@.size.0)),
            ),
            is_glyph_text(s@) ==> cut@ == cut_wave(s@, wave_width(self@.size.0)),
    {
        let width: usize = self.vu_width() as usize;
        if width == 0 {
            proof {
                assert(cut_wave(s@, 0) =~= Seq::<char>::empty());
            }
            return String::new();
        }
        let glyphs: usize = s.as_bytes().len() / 3;
        proof {
            if is_glyph_text(s@) {
                law_glyph_text_cuts(s@, 0);
            }
        }
        if glyphs <= width {
            assert(encode_utf8(s@).skip(0) =~= encode_utf8(s@));
            return String::from_str(s);
        }
        let skip: usize = (glyphs - width) * 3;
        let (_, tail): (&str, &str) = s.split_at(skip);
        proof {
            assert(encode_utf8(s@).subrange(skip as int, encode_utf8(s@).len() as int)
                =~= encode_utf8(s@).skip(skip as int));
            if is_glyph_text(s@) {
                law_glyph_text_cuts(s@, glyphs - width);
                encode_utf8_decode_utf8(tail@);
                encode_utf8_decode_utf8(s@.skip(glyphs - width));
            }
        }
        String::from_str(tail)
    }
}

/// The left part of the header.
pub open spec fn header_left(volume: Option<u8>) -> Seq<char> {
    match volume {
        Some(v) => " RADIO"@ + "  Vol: "@ + decimal(v as nat),
        None => " RADIO"@,
    }
}

/// The right part of the header: what plays.
pub open spec fn now_playing<A>(s: AppState<A>) -> Seq<char> {
    match s.current {
        Some(i) => {
            let title = match s.metadata {
                Some(t) => " — "@ + t,
                None => ""@,
            };
            let mark = if s.paused {
                " [paused]"@
            } else {
                ""@
            };
            "  "@ + s.stations[i as int].name@ + title + mark + " "@
        },
        None => seq![],
    }
}

/// The right part of the header has room beside the left part.
pub open spec fn title_fits<A>(s: AppState<A>) -> bool {
    &&& now_playing(s).len() > 0
    &&& text_room(now_playing(s)) + text_room(header_left(s.volume)) < s.size.0
}

/// The header: a bar over the whole width, with the volume on the left, and
/// on the right what plays, if there is room.
pub open spec fn header<A>(s: AppState<A>) -> Seq<Draw> {
    if s.size.0 == 0 {
        seq![]
    } else {
        seq![
            Draw::MoveTo(0, 0),
            Draw::SetAttribute(Attribute::Reverse),
            Draw::SetAttribute(Attribute::Bold),
            Draw::Print(spaces(s.size.0 as int)),
            Draw::MoveTo(0, 0),
            Draw::Print(header_left(s.volume)),
        ] + (if title_fits(s) {
            seq![
                Draw::MoveTo((s.size.0 - text_room(now_playing(s))) as u16, 0),
                Draw::Foreground(Color::Green),
                Draw::Print(now_playing(s)),
            ]
        } else {
            seq![]
        }) + seq![Draw::SetAttribute(Attribute::Reset), Draw::ResetColor]
    }
}

/// The row below the last one that is free for stations.
pub open spec fn bottom_row(size: (u16, u16)) -> int {
    if size.1 == 0 {
        0
    } else {
        size.1 - 1
    }
}

/// The footer: the hints, filled up to the whole width.
pub open spec fn footer(size: (u16, u16)) -> Seq<Draw> {
    seq![
        Draw::MoveTo(0, bottom_row(size) as u16),
        Draw::SetAttribute(Attribute::Reverse),
        Draw::SetAttribute(Attribute::Dim),
        Draw::Print(HINTS@),
        Draw::Print(spaces(size.0 - HINTS@.len())),
        Draw::ResetColor,
    ]
}

/// Draws the header.
pub fn render_header<A>(app: &App<A>, out: &mut Canvas)
    requires
        app.wf(),
    ensures
        final(out)@ == old(out)@ + header(app@),
{
    let ghost before = out@;
    let width: u16 = app.term_size.0;
    if width == 0 {
        assert(before + header(app@) =~= before);
        return;
    }
    let mut left: String = String::from_str(" RADIO");
    match app.volume {
        Some(v) => {
            left.append("  Vol: ");
            push_decimal(&mut left, v as usize);
        },
        None => {},
    }
    let mut right: String = String::new();
    match app.current_idx {
        Some(idx) => {
            right.append("  ");
            right.append(app.stations[idx].name);
            match &app.metadata {
                Some(t) => {
                    right.append(" — ");
                    right.append(t.as_str());
                },
                None => {},
            }
            if app.paused {
                right.append(" [paused]");
            }
            right.append(" ");
        },
        None => {},
    }
    proof {
        reveal_strlit("");
        assert(left@ =~= header_left(app@.volume));
        assert(right@ =~= now_playing(app@));
    }
    let mut bar: String = String::new();
    push_spaces(&mut bar, width as usize);
    assert(bar@ =~= spaces(width as int));
    out.add(DrawOp::MoveTo(0, 0));
    out.add(DrawOp::SetAttribute(Attribute::Reverse));
    out.add(DrawOp::SetAttribute(Attribute::Bold));
    out.add(DrawOp::Print(bar));
    out.add(DrawOp::MoveTo(0, 0));
    let left_room: usize = room(left.as_str());
    let right_room: usize = room(right.as_str());
    out.add(DrawOp::Print(left));
    if right_room > 0 && right_room < width as usize && width as usize - right_room > left_room {
        let column: u16 = width - right_room as u16;
        out.add(DrawOp::MoveTo(column, 0));
        out.add(DrawOp::Foreground(Color::Green));
        out.add(DrawOp::Print(right));
    }
    out.add(DrawOp::SetAttribute(Attribute::Reset));
    out.add(DrawOp::ResetColor);
    assert(out@ =~= before + header(app@));
}

/// Draws the footer.
pub fn render_footer<A>(app: &App<A>, out: &mut Canvas)
    ensures
        final(out)@ == old(out)@ + footer(app@.size),
{
    let ghost before = out@;
    let width: usize = app.term_size.0 as usize;
    let last_row: u16 = app.term_size.1.saturating_sub(1);
    let len: usize = HINTS.unicode_len();
    let mut fill: String = String::new();
    if len < width {
        push_spaces(&mut fill, width - len);
    }
    assert(fill@ =~= spaces(width - HINTS@.len()));
    out.add(DrawOp::MoveTo(0, last_row));
    out.add(DrawOp::SetAttribute(Attribute::Reverse));
    out.add(DrawOp::SetAttribute(Attribute::Dim));
    out.print(HINTS);
    out.add(DrawOp::Print(fill));
    out.add(DrawOp::ResetColor);
    assert(out@ =~= before + footer(app@.size));
}

/// Name and size of the `k`-th category.
pub open spec fn category_part<A>(s: AppState<A>, k: int) -> Seq<Draw> {
    let name = categories(s.stations)[k];
    let size = decimal(members(s.stations, name).len());
    let mark = if k == s.category {
        "▾"@
    } else {
        "▸"@
    };
    if k == s.category && s.station == -1 {
        seq![
            Draw::Print("  "@),
            Draw::Foreground(Color::Cyan),
            Draw::Print(">"@),
            Draw::ResetColor,
            Draw::Print(" "@),
            Draw::SetAttribute(Attribute::Bold),
            Draw::Foreground(Color::White),
            Draw::Print(mark + " "@ + padded(name, 28)),
            Draw::ResetColor,
            Draw::Print("  "@),
            Draw::SetAttribute(Attribute::Dim),
            Draw::Print(size),
            Draw::ResetColor,
        ]
    } else {
        seq![
            Draw::Print("   "@ + mark + " "@ + padded(name, 28) + "  "@),
            Draw::SetAttribute(Attribute::Dim),
            Draw::Print(size),
            Draw::ResetColor,
        ]
    }
}

/// The line of the `k`-th category in row `row`.
pub open spec fn category_line<A>(s: AppState<A>, k: int, row: int) -> Seq<Draw> {
    seq![Draw::MoveTo(0, row as u16)] + category_part(s, k) + seq![Draw::ClearLine]
}

/// The `k`-th station of the category under the cursor plays.
pub open spec fn plays<A>(s: AppState<A>, k: int) -> bool {
    s.current == Some(shown(s)[k])
}

/// One row of the waveform.
pub open spec fn wave_part<A>(s: AppState<A>, k: int, wave: Seq<char>, row: int) -> Seq<Draw> {
    if plays(s, k) && wave.len() > 0 {
        seq![
            Draw::MoveTo((WAVE_COL - 1) as u16, row as u16),
            Draw::Foreground(Color::Green),
            Draw::Print(cut_wave(wave, wave_width(s.size.0))),
            Draw::ResetColor,
        ]
    } else {
        seq![]
    }
}

/// What tells that a station plays or is paused.
pub open spec fn play_mark<A>(s: AppState<A>, k: int) -> Seq<Draw> {
    if !plays(s, k) {
        seq![]
    } else if s.paused {
        seq![Draw::Foreground(Color::Yellow), Draw::Print(" ▐▐"@), Draw::ResetColor]
    } else {
        seq![Draw::Foreground(Color::Green), Draw::Print(" ▶"@), Draw::ResetColor]
    }
}

/// Name and quality of a station.
pub open spec fn name_part(station: Station, under_cursor: bool) -> Seq<Draw> {
    if under_cursor {
        seq![
            Draw::Print("    "@),
            Draw::Foreground(Color::Cyan),
            Draw::Print(">"@),
            Draw::ResetColor,
            Draw::Print(" "@),
            Draw::SetAttribute(Attribute::Bold),
            Draw::Foreground(Color::White),
            Draw::Print(padded(station.name@, 30)),
            Draw::ResetColor,
            Draw::Print(" "@),
            Draw::Foreground(Color::Yellow),
            Draw::Print(padded(station.quality@, 7)),
            Draw::ResetColor,
        ]
    } else {
        seq![
            Draw::Print("     "@ + padded(station.name@, 30) + " "@),
            Draw::SetAttribute(Attribute::Dim),
            Draw::Print(padded(station.quality@, 7)),
            Draw::ResetColor,
        ]
    }
}

/// The first line of the `k`-th station of the category under the cursor.
pub open spec fn name_line<A>(s: AppState<A>, k: int, row: int) -> Seq<Draw> {
    let station = s.stations[shown(s)[k] as int];
    seq![Draw::MoveTo(0, row as u16)] + (name_part(station, k == s.station) + play_mark(s, k))
        + seq![Draw::ClearLine] + wave_part(s, k, s.wave_top, row)
}

/// The description of a station, where it is shown.
pub open spec fn desc_part<A>(s: AppState<A>, k: int) -> Seq<Draw> {
    if k == s.station {
        seq![
            Draw::Print("      "@),
            Draw::SetAttribute(Attribute::Dim),
            Draw::Print(s.stations[shown(s)[k] as int].desc@),
            Draw::ResetColor,
            Draw::ClearLine,
        ]
    } else if plays(s, k) {
        seq![Draw::ClearLine]
    } else {
        seq![]
    }
}

/// The second line of that station: its description, and the rest of the
/// waveform.
pub open spec fn desc_line<A>(s: AppState<A>, k: int, row: int) -> Seq<Draw> {
    seq![Draw::MoveTo(0, row as u16)] + desc_part(s, k) + wave_part(s, k, s.wave_bot, row)
}

/// A screen in the making: what was drawn, and the next free row.
pub struct Page {
    pub ops: Seq<Draw>,
    pub row: int,
}

/// The page with the `k`-th station of the category under the cursor, as far
/// as there are rows. The second line is kept only if there is something in
/// it: for the station under the cursor and for the one that plays.
pub open spec fn with_station<A>(s: AppState<A>, k: int, page: Page) -> Page {
    let bottom = bottom_row(s.size);
    if page.row >= bottom {
        page
    } else if page.row + 1 >= bottom {
        Page { ops: page.ops + name_line(s, k, page.row), row: page.row + 1 }
    } else {
        Page {
            ops: page.ops + name_line(s, k, page.row) + desc_line(s, k, page.row + 1),
            row: if k == s.station || plays(s, k) {
                page.row + 2
            } else {
                page.row + 1
            },
        }
    }
}

/// The page with the first `n` stations of the category under the cursor.
pub open spec fn with_stations<A>(s: AppState<A>, n: nat, page: Page) -> Page
    decreases n,
{
    if n == 0 {
        page
    } else {
        with_station(s, n - 1, with_stations(s, (n - 1) as nat, page))
    }
}

/// The page with the `k`-th category, as far as there are rows. The category
/// under the cursor shows its stations.
pub open spec fn with_category<A>(s: AppState<A>, k: int, page: Page) -> Page {
    if page.row >= bottom_row(s.size) {
        page
    } else {
        let titled = Page { ops: page.ops + category_line(s, k, page.row), row: page.row + 1 };
        if k == s.category {
            with_stations(s, shown(s).len(), titled)
        } else {
            titled
        }
    }
}

/// The page with the first `n` categories.
pub open spec fn with_categories<A>(s: AppState<A>, n: nat, page: Page) -> Page
    decreases n,
{
    if n == 0 {
        page
    } else {
        with_category(s, n - 1, with_categories(s, (n - 1) as nat, page))
    }
}

/// The list of categories and stations.
pub open spec fn body<A>(s: AppState<A>) -> Page {
    with_categories(
        s,
        categories(s.stations).len(),
        Page { ops: seq![], row: FIRST_ROW as int },
    )
}

/// Empty rows from `row` up to `bottom`.
pub open spec fn blanks(row: int, bottom: int) -> Seq<Draw>
    decreases bottom - row,
{
    if row >= bottom {
        seq![]
    } else {
        seq![Draw::MoveTo(0, row as u16), Draw::ClearLine] + blanks(row + 1, bottom)
    }
}

/// The whole screen.
pub open spec fn frame<A>(s: AppState<A>) -> Seq<Draw> {
    seq![Draw::MoveTo(0, 0)] + header(s) + body(s).ops + blanks(body(s).row, bottom_row(s.size))
        + footer(s.size)
}

/// Draws the line of a category.
fn draw_category<A>(app: &App<A>, k: usize, row: u16, out: &mut Canvas)
    requires
        app.wf(),
        k < app.categories@.len(),
    ensures
        final(out)@ == old(out)@ + category_line(app@, k as int, row as int),
{
    let ghost before = out@;
    let name: &'static str = app.categories[k];
    let ghost title = categories(app@.stations)[k as int];
    assert(texts(app.categories@)[k as int] == name@);
    assert(title == name@);
    let mark: &'static str = if k == app.category_cursor {
        "▾"
    } else {
        "▸"
    };
    let mut size: String = String::new();
    push_decimal(&mut size, app.cat_counts[k]);
    assert(size@ =~= decimal(members(app@.stations, title).len()));
    out.add(DrawOp::MoveTo(0, row));
    if k == app.category_cursor && app.station_cursor == -1 {
        let mut label: String = String::from_str(mark);
        label.append(" ");
        push_padded(&mut label, name, 28);
        out.print("  ");
        out.add(DrawOp::Foreground(Color::Cyan));
        out.print(">");
        out.add(DrawOp::ResetColor);
        out.print(" ");
        out.add(DrawOp::SetAttribute(Attribute::Bold));
        out.add(DrawOp::Foreground(Color::White));
        out.add(DrawOp::Print(label));
        out.add(DrawOp::ResetColor);
        out.print("  ");
        out.add(DrawOp::SetAttribute(Attribute::Dim));
        out.add(DrawOp::Print(size));
        out.add(DrawOp::ResetColor);
    } else {
        let mut label: String = String::from_str("   ");
        label.append(mark);
        label.append(" ");
        push_padded(&mut label, name, 28);
        label.append("  ");
        out.add(DrawOp::Print(label));
        out.add(DrawOp::SetAttribute(Attribute::Dim));
        out.add(DrawOp::Print(size));
        out.add(DrawOp::ResetColor);
    }
    out.add(DrawOp::ClearLine);
    assert(out@ =~= before + category_line(app@, k as int, row as int));
}

/// Whether the `k`-th station of the category under the cursor plays.
fn is_playing<A>(app: &App<A>, k: usize) -> (playing: bool)
    requires
        app.wf(),
        k < app.expanded@.len(),
    ensures
        playing == plays(app@, k as int),
{
    match app.current_idx {
        Some(i) => i == app.expanded[k],
        None => false,
    }
}

/// Draws one row of the waveform.
fn draw_wave<A>(app: &App<A>, k: usize, wave: &str, row: u16, out: &mut Canvas)
    requires
        app.wf(),
        k < app.expanded@.len(),
        is_glyph_text(wave@),
    ensures
        final(out)@ == old(out)@ + wave_part(app@, k as int, wave@, row as int),
{
    let ghost before = out@;
    if is_playing(app, k) && !wave.is_empty() {
        proof {
            law_glyph_text_cuts(wave@, 0);
            let width = wave_width(app@.size.0);
            if excess_glyphs(wave@, width) > 0 {
                law_glyph_text_cuts(wave@, excess_glyphs(wave@, width));
            }
        }
        let cut: String = app.truncate_wave(wave);
        out.add(DrawOp::MoveTo(WAVE_COL - 1, row));
        out.add(DrawOp::Foreground(Color::Green));
        out.add(DrawOp::Print(cut));
        out.add(DrawOp::ResetColor);
    }
    assert(out@ =~= before + wave_part(app@, k as int, wave@, row as int));
}

/// Draws name and quality of a station.
fn draw_name(station: &Station, under_cursor: bool, out: &mut Canvas)
    ensures
        final(out)@ == old(out)@ + name_part(*station, under_cursor),
{
    let ghost before = out@;
    let mut quality: String = String::new();
    push_padded(&mut quality, station.quality, 7);
    assert(quality@ =~= padded(station.quality@, 7));
    if under_cursor {
        let mut name: String = String::new();
        push_padded(&mut name, station.name, 30);
        assert(name@ =~= padded(station.name@, 30));
        out.print("    ");
        out.add(DrawOp::Foreground(Color::Cyan));
        out.print(">");
        out.add(DrawOp::ResetColor);
        out.print(" ");
        out.add(DrawOp::SetAttribute(Attribute::Bold));
        out.add(DrawOp::Foreground(Color::White));
        out.add(DrawOp::Print(name));
        out.add(DrawOp::ResetColor);
        out.print(" ");
        out.add(DrawOp::Foreground(Color::Yellow));
        out.add(DrawOp::Print(quality));
        out.add(DrawOp::ResetColor);
    } else {
        let mut name: String = String::from_str("     ");
        push_padded(&mut name, station.name, 30);
        name.append(" ");
        out.add(DrawOp::Print(name));
        out.add(DrawOp::SetAttribute(Attribute::Dim));
        out.add(DrawOp::Print(quality));
        out.add(DrawOp::ResetColor);
    }
    assert(out@ =~= before + name_part(*station, under_cursor));
}

/// Draws the first line of a station.
fn draw_name_line<A>(app: &App<A>, k: usize, row: u16, out: &mut Canvas)
    requires
        app.wf(),
        k < app.expanded@.len(),
    ensures
        final(out)@ == old(out)@ + name_line(app@, k as int, row as int),
{
    let ghost before = out@;
    proof {
        lemma_shown(app@);
    }
    let under_cursor: bool = app.station_cursor >= 0 && app.station_cursor as usize == k;
    out.add(DrawOp::MoveTo(0, row));
    draw_name(&app.stations[app.expanded[k]], under_cursor, out);
    if is_playing(app, k) {
        if app.paused {
            out.add(DrawOp::Foreground(Color::Yellow));
            out.print(" ▐▐");
            out.add(DrawOp::ResetColor);
        } else {
            out.add(DrawOp::Foreground(Color::Green));
            out.print(" ▶");
            out.add(DrawOp::ResetColor);
        }
    }
    out.add(DrawOp::ClearLine);
    draw_wave(app, k, app.wave_top.as_str(), row, out);
    assert(out@ =~= before + name_line(app@, k as int, row as int));
}

/// Draws the second line of a station.
fn draw_desc_line<A>(app: &App<A>, k: usize, row: u16, out: &mut Canvas)
    requires
        app.wf(),
        k < app.expanded@.len(),
    ensures
        final(out)@ == old(out)@ + desc_line(app@, k as int, row as int),
{
    let ghost before = out@;
    proof {
        lemma_shown(app@);
    }
    out.add(DrawOp::MoveTo(0, row));
    if app.station_cursor >= 0 && app.station_cursor as usize == k {
        out.print("      ");
        out.add(DrawOp::SetAttribute(Attribute::Dim));
        out.print(app.stations[app.expanded[k]].desc);
        out.add(DrawOp::ResetColor);
        out.add(DrawOp::ClearLine);
    } else if is_playing(app, k) {
        // An empty row keeps the layout steady until the waveform comes.
        out.add(DrawOp::ClearLine);
    }
    draw_wave(app, k, app.wave_bot.as_str(), row, out);
    assert(out@ =~= before + desc_line(app@, k as int, row as int));
}

/// Draws the stations of the category under the cursor from row `row` on, as
/// far as there are rows; gives the next free row.
fn draw_stations<A>(app: &App<A>, row: u16, out: &mut Canvas) -> (next: u16)
    requires
        app.wf(),
    ensures
        ({
            let start = Page { ops: old(out)@, row: row as int };
            let page = with_stations(app@, shown(app@).len(), start);
            &&& final(out)@ == page.ops
            &&& next == page.row
        }),
{
    let ghost start = Page { ops: out@, row: row as int };
    let bottom: u16 = app.term_size.1.saturating_sub(1);
    let mut next: u16 = row;
    let mut k: usize = 0;
    while k < app.expanded.len()
        invariant
            app.wf(),
            k <= app.expanded@.len(),
            bottom == bottom_row(app@.size),
            with_stations(app@, k as nat, start) == (Page { ops: out@, row: next as int }),
        decreases app.expanded@.len() - k,
    {
        if next < bottom {
            draw_name_line(app, k, next, out);
            next = next + 1;
            if next < bottom {
                draw_desc_line(app, k, next, out);
                let under_cursor: bool = app.station_cursor >= 0 && app.station_cursor as usize
                    == k;
                if under_cursor || is_playing(app, k) {
                    next = next + 1;
                }
            }
        }
        k = k + 1;
    }
    next
}

/// Draws the whole screen.
pub fn render<A>(app: &App<A>) -> (canvas: Canvas)
    requires
        app.wf(),
    ensures
        canvas@ == frame(app@),
{
    let mut out: Canvas = Canvas::new();
    out.add(DrawOp::MoveTo(0, 0));
    render_header(app, &mut out);
    let ghost top = out@;
    let ghost start = Page { ops: seq![], row: FIRST_ROW as int };
    assert(top =~= seq![Draw::MoveTo(0, 0)] + header(app@));
    let bottom: u16 = app.term_size.1.saturating_sub(1);
    let mut row: u16 = FIRST_ROW;
    let mut k: usize = 0;
    proof {
        assert(texts(app.categories@).len() == app.categories@.len());
        assert(top =~= top + start.ops);
    }
    while k < app.categories.len()
        invariant
            app.wf(),
            k <= app.categories@.len(),
            bottom == bottom_row(app@.size),
            out@ == top + with_categories(app@, k as nat, start).ops,
            row == with_categories(app@, k as nat, start).row,
        decreases app.categories@.len() - k,
    {
        if row < bottom {
            let ghost page = with_categories(app@, k as nat, start);
            draw_category(app, k, row, &mut out);
            let ghost titled = Page {
                ops: page.ops + category_line(app@, k as int, page.row),
                row: page.row + 1,
            };
            assert(out@ =~= top + titled.ops);
            row = row + 1;
            if k == app.category_cursor {
                row = draw_stations(app, row, &mut out);
                proof {
                    lemma_stations_on_top(app@, shown(app@).len(), top, titled);
                }
            }
        }
        k = k + 1;
    }
    let ghost drawn = out@;
    let ghost first_blank = row as int;
    assert(drawn + blanks(first_blank, bottom as int) =~= out@ + blanks(row as int, bottom as int));
    while row < bottom
        invariant
            drawn + blanks(first_blank, bottom as int) == out@ + blanks(row as int, bottom as int),
        decreases bottom - row,
    {
        let ghost before = out@;
        out.add(DrawOp::MoveTo(0, row));
        out.add(DrawOp::ClearLine);
        assert(before + blanks(row as int, bottom as int) =~= out@ + blanks(
            row + 1,
            bottom as int,
        ));
        row = row + 1;
    }
    assert(out@ =~= drawn + blanks(first_blank, bottom as int));
    render_footer(app, &mut out);
    assert(out@ =~= frame(app@));
    out
}

/// What is drawn does not depend on what was drawn before.
proof fn lemma_stations_on_top<A>(s: AppState<A>, n: nat, top: Seq<Draw>, page: Page)
    ensures
        ({
            let above = with_stations(s, n, Page { ops: top + page.ops, row: page.row });
            let alone = with_stations(s, n, page);
            &&& above.ops == top + alone.ops
            &&& above.row == alone.row
        }),
    decreases n,
{
    if n > 0 {
        lemma_stations_on_top(s, (n - 1) as nat, top, page);
        let above = with_stations(s, (n - 1) as nat, Page { ops: top + page.ops, row: page.row });
        let alone = with_stations(s, (n - 1) as nat, page);
        assert(with_station(s, n - 1, above).ops =~= top + with_station(s, n - 1, alone).ops);
    }
}

/// The screen at the end of a turn, cleared first if that was asked for.
pub open spec fn refreshed<A>(s: AppState<A>, clear: bool) -> Seq<Draw> {
    if clear {
        seq![Draw::ClearAll] + frame(s)
    } else {
        frame(s)
    }
}

/// Draws the screen at the end of a turn.
pub fn refresh<A>(app: &App<A>, clear: bool) -> (canvas: Canvas)
    requires
        app.wf(),
    ensures
        canvas@ == refreshed(app@, clear),
{
    let mut screen: Canvas = render(app);
    if !clear {
        return screen;
    }
    let ghost drawn = screen@;
    let mut out: Canvas = Canvas::new();
    out.add(DrawOp::ClearAll);
    out.ops.append(&mut screen.ops);
    assert(out@ =~= seq![Draw::ClearAll] + drawn);
    out
}

/// No command leaves the rows from `first` up to `end`.
pub open spec fn within(ops: Seq<Draw>, first: int, end: int) -> bool {
    forall|i: int| 0 <= i < ops.len() ==> ((#[trigger] ops[i]) matches Draw::MoveTo(_, row) ==>
        first <= row < end)
}

/// Row `row` is gone to and cleared, to its end or behind what is written.
pub open spec fn wiped(ops: Seq<Draw>, row: int) -> bool {
    exists|i: int, j: int|
        0 <= i < j < ops.len() && #[trigger] ops[i] == Draw::MoveTo(0, row as u16)
            && #[trigger] ops[j] is ClearLine && stays(ops, i, j)
}

/// The commands between `i` and `j` do not leave the row.
pub open spec fn stays(ops: Seq<Draw>, i: int, j: int) -> bool {
    forall|k: int| i < k < j ==> !((#[trigger] ops[k]) is MoveTo)
}

/// Every row from the first one up to `row` is cleared.
pub open spec fn wiped_to(ops: Seq<Draw>, row: int) -> bool {
    forall|r: int| FIRST_ROW <= r < row ==> #[trigger] wiped(ops, r)
}

proof fn lemma_wiped_grows(a: Seq<Draw>, b: Seq<Draw>, row: int)
    ensures
        wiped(a, row) ==> wiped(a + b, row),
        wiped(b, row) ==> wiped(a + b, row),
{
    let ops = a + b;
    if wiped(a, row) {
        let (i, j) = choose|i: int, j: int|
            0 <= i < j < a.len() && #[trigger] a[i] == Draw::MoveTo(0, row as u16)
                && #[trigger] a[j] is ClearLine && stays(a, i, j);
        assert(ops[i] == a[i] && ops[j] == a[j]);
        assert forall|k: int| i < k < j implies !((#[trigger] ops[k]) is MoveTo) by {
            assert(ops[k] == a[k]);
        }
        assert(stays(ops, i, j));
    }
    if wiped(b, row) {
        let (i, j) = choose|i: int, j: int|
            0 <= i < j < b.len() && #[trigger] b[i] == Draw::MoveTo(0, row as u16)
                && #[trigger] b[j] is ClearLine && stays(b, i, j);
        let n = a.len() as int;
        assert(ops[n + i] == b[i] && ops[n + j] == b[j]);
        assert forall|k: int| n + i < k < n + j implies !((#[trigger] ops[k]) is MoveTo) by {
            assert(ops[k] == b[k - n]);
        }
        assert(stays(ops, n + i, n + j));
    }
}

proof fn lemma_wiped_to_grows(a: Seq<Draw>, b: Seq<Draw>, row: int)
    requires
        wiped_to(a, row),
    ensures
        wiped_to(a + b, row),
{
    assert forall|r: int| FIRST_ROW <= r < row implies #[trigger] wiped(a + b, r) by {
        assert(wiped(a, r));
        lemma_wiped_grows(a, b, r);
    }
}

proof fn lemma_line_wipes(row: int, middle: Seq<Draw>)
    requires
        forall|k: int| 0 <= k < middle.len() ==> !((#[trigger] middle[k]) is MoveTo),
    ensures
        wiped(seq![Draw::MoveTo(0, row as u16)] + middle + seq![Draw::ClearLine], row),
{
    let line = seq![Draw::MoveTo(0, row as u16)] + middle + seq![Draw::ClearLine];
    let j = middle.len() as int + 1;
    assert(line[0] == Draw::MoveTo(0, row as u16));
    assert(line[j] is ClearLine);
    assert forall|k: int| 0 < k < j implies !((#[trigger] line[k]) is MoveTo) by {
        assert(line[k] == middle[k - 1]);
    }
    assert(stays(line, 0, j));
}

proof fn lemma_category_line<A>(s: AppState<A>, k: int, row: int, first: int, end: int)
    requires
        0 <= first <= row < end <= 0x10000,
    ensures
        wiped(category_line(s, k, row), row),
        within(category_line(s, k, row), first, end),
{
    let line = category_line(s, k, row);
    let middle = category_part(s, k);
    lemma_line_wipes(row, middle);
    assert forall|i: int| 0 <= i < line.len() implies ((#[trigger] line[i]) matches Draw::MoveTo(
        _,
        r,
    ) ==> first <= r < end) by {
        if 0 < i < line.len() - 1 {
            assert(line[i] == middle[i - 1]);
        }
    }
}

proof fn lemma_name_line<A>(s: AppState<A>, k: int, row: int, first: int, end: int)
    requires
        0 <= first <= row < end <= 0x10000,
    ensures
        wiped(name_line(s, k, row), row),
        within(name_line(s, k, row), first, end),
{
    let station = s.stations[shown(s)[k] as int];
    let middle = name_part(station, k == s.station) + play_mark(s, k);
    let head = seq![Draw::MoveTo(0, row as u16)] + middle + seq![Draw::ClearLine];
    let wave = wave_part(s, k, s.wave_top, row);
    lemma_line_wipes(row, middle);
    lemma_wiped_grows(head, wave, row);
    assert(name_line(s, k, row) =~= head + wave);
    assert(within(head, first, end)) by {
        assert forall|i: int| 0 <= i < head.len() implies ((#[trigger] head[i]) matches Draw::MoveTo(
            _,
            r,
        ) ==> first <= r < end) by {
            if 0 < i < head.len() - 1 {
                assert(head[i] == middle[i - 1]);
            }
        }
    }
    assert(within(wave, first, end));
    lemma_within_joins(head, wave, first, end);
}

proof fn lemma_desc_line<A>(s: AppState<A>, k: int, row: int, first: int, end: int)
    requires
        0 <= first <= row < end <= 0x10000,
    ensures
        k == s.station || plays(s, k) ==> wiped(desc_line(s, k, row), row),
        within(desc_line(s, k, row), first, end),
{
    let go = seq![Draw::MoveTo(0, row as u16)];
    let desc = desc_part(s, k);
    let wave = wave_part(s, k, s.wave_bot, row);
    if k == s.station || plays(s, k) {
        let middle = desc.drop_last();
        lemma_line_wipes(row, middle);
        assert(go + desc =~= go + middle + seq![Draw::ClearLine]);
        lemma_wiped_grows(go + desc, wave, row);
    }
    assert(within(go + desc, first, end));
    assert(within(wave, first, end));
    lemma_within_joins(go + desc, wave, first, end);
}

proof fn lemma_within_joins(a: Seq<Draw>, b: Seq<Draw>, first: int, end: int)
    requires
        within(a, first, end),
        within(b, first, end),
    ensures
        within(a + b, first, end),
{
    let ops = a + b;
    assert forall|i: int| 0 <= i < ops.len() implies ((#[trigger] ops[i]) matches Draw::MoveTo(
        _,
        r,
    ) ==> first <= r < end) by {
        if i < a.len() {
            assert(ops[i] == a[i]);
        } else {
            assert(ops[i] == b[i - a.len()]);
        }
    }
}

/// A page whose rows are cleared as far as it goes, and that stays above the
/// last row.
spec fn tidy(page: Page, bottom: int) -> bool {
    &&& FIRST_ROW <= page.row
    &&& page.row <= bottom || page.row == FIRST_ROW
    &&& wiped_to(page.ops, page.row)
    &&& within(page.ops, FIRST_ROW as int, bottom)
}

proof fn lemma_tidy_line(page: Page, line: Seq<Draw>, bottom: int)
    requires
        tidy(page, bottom),
        page.row < bottom,
        wiped(line, page.row),
        within(line, FIRST_ROW as int, bottom),
    ensures
        tidy(Page { ops: page.ops + line, row: page.row + 1 }, bottom),
{
    lemma_wiped_to_grows(page.ops, line, page.row);
    lemma_wiped_grows(page.ops, line, page.row);
    lemma_within_joins(page.ops, line, FIRST_ROW as int, bottom);
}

proof fn lemma_tidy_station<A>(s: AppState<A>, k: int, page: Page)
    requires
        tidy(page, bottom_row(s.size)),
    ensures
        tidy(with_station(s, k, page), bottom_row(s.size)),
{
    let bottom = bottom_row(s.size);
    if page.row < bottom {
        let named = Page { ops: page.ops + name_line(s, k, page.row), row: page.row + 1 };
        lemma_name_line(s, k, page.row, FIRST_ROW as int, bottom);
        lemma_tidy_line(page, name_line(s, k, page.row), bottom);
        if named.row < bottom {
            let line = desc_line(s, k, named.row);
            lemma_desc_line(s, k, named.row, FIRST_ROW as int, bottom);
            if k == s.station || plays(s, k) {
                lemma_tidy_line(named, line, bottom);
            } else {
                lemma_wiped_to_grows(named.ops, line, named.row);
                lemma_within_joins(named.ops, line, FIRST_ROW as int, bottom);
            }
        }
    }
}

proof fn lemma_tidy_stations<A>(s: AppState<A>, n: nat, page: Page)
    requires
        tidy(page, bottom_row(s.size)),
    ensures
        tidy(with_stations(s, n, page), bottom_row(s.size)),
    decreases n,
{
    if n > 0 {
        lemma_tidy_stations(s, (n - 1) as nat, page);
        lemma_tidy_station(s, n - 1, with_stations(s, (n - 1) as nat, page));
    }
}

proof fn lemma_tidy_categories<A>(s: AppState<A>, n: nat, page: Page)
    requires
        tidy(page, bottom_row(s.size)),
    ensures
        tidy(with_categories(s, n, page), bottom_row(s.size)),
    decreases n,
{
    if n > 0 {
        let bottom = bottom_row(s.size);
        lemma_tidy_categories(s, (n - 1) as nat, page);
        let before = with_categories(s, (n - 1) as nat, page);
        if before.row < bottom {
            let line = category_line(s, n - 1, before.row);
            lemma_category_line(s, n - 1, before.row, FIRST_ROW as int, bottom);
            lemma_tidy_line(before, line, bottom);
            if n - 1 == s.category {
                lemma_tidy_stations(
                    s,
                    shown(s).len(),
                    Page { ops: before.ops + line, row: before.row + 1 },
                );
            }
        }
    }
}

proof fn lemma_blanks(row: int, bottom: int)
    requires
        0 <= row,
        bottom <= 0x10000,
    ensures
        within(blanks(row, bottom), row, bottom),
        forall|r: int| row <= r < bottom ==> #[trigger] wiped(blanks(row, bottom), r),
    decreases bottom - row,
{
    if row < bottom {
        let line = seq![Draw::MoveTo(0, row as u16), Draw::ClearLine];
        let rest = blanks(row + 1, bottom);
        lemma_blanks(row + 1, bottom);
        lemma_line_wipes(row, seq![]);
        assert(line =~= seq![Draw::MoveTo(0, row as u16)] + Seq::<Draw>::empty() + seq![
            Draw::ClearLine,
        ]);
        assert(within(line, row, bottom));
        lemma_within_joins(line, rest, row, bottom);
        assert forall|r: int| row <= r < bottom implies #[trigger] wiped(
            blanks(row, bottom),
            r,
        ) by {
            if r > row {
                assert(wiped(rest, r));
            }
            lemma_wiped_grows(line, rest, r);
        }
    }
}

/// Nothing is drawn outside the terminal: every command stays within its
/// rows, and the list stays between the header and the footer.
pub proof fn law_drawing_stays_on_screen<A>(s: AppState<A>)
    requires
        s.size.1 > 0,
    ensures
        within(frame(s), 0, s.size.1 as int),
        within(body(s).ops, FIRST_ROW as int, bottom_row(s.size)),
        FIRST_ROW <= body(s).row,
        body(s).row <= bottom_row(s.size) || body(s).row == FIRST_ROW,
{
    let bottom = bottom_row(s.size);
    let rows = s.size.1 as int;
    lemma_body(s);
    lemma_blanks(body(s).row, bottom);
    let top = seq![Draw::MoveTo(0, 0)] + header(s);
    let rest = blanks(body(s).row, bottom);
    assert(within(top, 0, rows));
    assert(within(body(s).ops, 0, rows));
    assert(within(rest, 0, rows));
    assert(within(footer(s.size), 0, rows));
    lemma_within_joins(top, body(s).ops, 0, rows);
    lemma_within_joins(top + body(s).ops, rest, 0, rows);
    lemma_within_joins(top + body(s).ops + rest, footer(s.size), 0, rows);
}

/// Nothing is left of an earlier screen: every row between the header and the
/// footer is cleared.
pub proof fn law_no_leftovers<A>(s: AppState<A>, row: int)
    requires
        FIRST_ROW <= row < bottom_row(s.size),
    ensures
        wiped(frame(s), row),
{
    let bottom = bottom_row(s.size);
    lemma_body(s);
    lemma_blanks(body(s).row, bottom);
    let top = seq![Draw::MoveTo(0, 0)] + header(s);
    let list = body(s).ops;
    let rest = blanks(body(s).row, bottom);
    if row < body(s).row {
        assert(wiped(list, row));
    } else {
        assert(wiped(rest, row));
    }
    lemma_wiped_grows(top, list, row);
    lemma_wiped_grows(top + list, rest, row);
    lemma_wiped_grows(top + list + rest, footer(s.size), row);
}

proof fn lemma_body<A>(s: AppState<A>)
    ensures
        tidy(body(s), bottom_row(s.size)),
{
    let start = Page { ops: seq![], row: FIRST_ROW as int };
    lemma_tidy_categories(s, categories(s.stations).len(), start);
}

/// A command that goes to where a row of the waveform begins.
pub open spec fn starts_wave(op: Draw) -> bool {
    op matches Draw::MoveTo(column, row) && column == WAVE_COL - 1 && row >= FIRST_ROW
}

/// Commands without those that draw the waveform: where one of its rows
/// begins, four commands go to it, set the color, write it and reset the color.
pub open spec fn without_waves(ops: Seq<Draw>) -> Seq<Draw>
    decreases ops.len(),
{
    if ops.len() == 0 {
        seq![]
    } else if starts_wave(ops[0]) {
        without_waves(ops.skip(if ops.len() < 4 {
            ops.len() as int
        } else {
            4
        }))
    } else {
        seq![ops[0]] + without_waves(ops.skip(1))
    }
}

/// The player without a waveform.
pub open spec fn silent<A>(s: AppState<A>) -> AppState<A> {
    AppState { wave_top: seq![], wave_bot: seq![], ..s }
}

/// Every row of the waveform that begins in these commands also ends there,
/// and what is left without the waveform is `bare`.
spec fn strips_to(ops: Seq<Draw>, bare: Seq<Draw>) -> bool {
    forall|rest: Seq<Draw>| #[trigger] without_waves(ops + rest) == bare + without_waves(rest)
}

proof fn lemma_strips_join(a: Seq<Draw>, a_bare: Seq<Draw>, b: Seq<Draw>, b_bare: Seq<Draw>)
    requires
        strips_to(a, a_bare),
        strips_to(b, b_bare),
    ensures
        strips_to(a + b, a_bare + b_bare),
{
    assert forall|rest: Seq<Draw>| #[trigger] without_waves((a + b) + rest) == (a_bare + b_bare)
        + without_waves(rest) by {
        assert((a + b) + rest =~= a + (b + rest));
        assert(without_waves(a + (b + rest)) == a_bare + without_waves(b + rest));
        assert(a_bare + (b_bare + without_waves(rest)) =~= (a_bare + b_bare) + without_waves(rest));
    }
}

proof fn lemma_strips_plain(ops: Seq<Draw>)
    requires
        forall|i: int| 0 <= i < ops.len() ==> !starts_wave(#[trigger] ops[i]),
    ensures
        strips_to(ops, ops),
    decreases ops.len(),
{
    assert forall|rest: Seq<Draw>| #[trigger] without_waves(ops + rest) == ops + without_waves(
        rest,
    ) by {
        if ops.len() == 0 {
            assert(ops + rest =~= rest);
            assert(ops + without_waves(rest) =~= without_waves(rest));
        } else {
            let tail = ops.skip(1);
            lemma_strips_plain(tail);
            assert((ops + rest).skip(1) =~= tail + rest);
            assert((ops + rest)[0] == ops[0]);
            assert(without_waves(tail + rest) == tail + without_waves(rest));
            assert(seq![ops[0]] + (tail + without_waves(rest)) =~= ops + without_waves(rest));
        }
    }
}

proof fn lemma_strips_wave<A>(s: AppState<A>, k: int, wave: Seq<char>, row: int)
    requires
        FIRST_ROW <= row < 0x10000,
    ensures
        strips_to(wave_part(s, k, wave, row), seq![]),
{
    let ops = wave_part(s, k, wave, row);
    assert forall|rest: Seq<Draw>| #[trigger] without_waves(ops + rest) == Seq::<Draw>::empty()
        + without_waves(rest) by {
        assert(Seq::<Draw>::empty() + without_waves(rest) =~= without_waves(rest));
        if ops.len() == 0 {
            assert(ops + rest =~= rest);
        } else {
            assert((ops + rest)[0] == ops[0]);
            assert((ops + rest).skip(4) =~= rest);
        }
    }
}

proof fn lemma_strips_lines<A>(s: AppState<A>, k: int, row: int)
    requires
        FIRST_ROW <= row < 0x10000,
    ensures
        strips_to(category_line(s, k, row), category_line(silent(s), k, row)),
        strips_to(name_line(s, k, row), name_line(silent(s), k, row)),
        strips_to(desc_line(s, k, row), desc_line(silent(s), k, row)),
{
    let go = seq![Draw::MoveTo(0, row as u16)];
    lemma_strips_plain(category_line(s, k, row));
    assert(shown(silent(s)) == shown(s));
    let station = s.stations[shown(s)[k] as int];
    let named = go + (name_part(station, k == s.station) + play_mark(s, k)) + seq![Draw::ClearLine];
    lemma_strips_plain(named);
    lemma_strips_wave(s, k, s.wave_top, row);
    lemma_strips_join(named, named, wave_part(s, k, s.wave_top, row), seq![]);
    assert(name_line(silent(s), k, row) =~= named + Seq::<Draw>::empty());
    let described = go + desc_part(s, k);
    lemma_strips_plain(described);
    lemma_strips_wave(s, k, s.wave_bot, row);
    lemma_strips_join(described, described, wave_part(s, k, s.wave_bot, row), seq![]);
    assert(desc_line(silent(s), k, row) =~= described + Seq::<Draw>::empty());
}

/// Two pages that end in the same row, the second without the waveform.
spec fn same_layout(page: Page, bare: Page) -> bool {
    &&& page.row == bare.row
    &&& FIRST_ROW <= page.row
    &&& strips_to(page.ops, bare.ops)
}

proof fn lemma_layout_station<A>(s: AppState<A>, k: int, page: Page, bare: Page)
    requires
        same_layout(page, bare),
    ensures
        same_layout(with_station(s, k, page), with_station(silent(s), k, bare)),
{
    let row = page.row;
    let t = silent(s);
    assert(shown(t) == shown(s));
    if row < bottom_row(s.size) {
        lemma_strips_lines(s, k, row);
        lemma_strips_join(page.ops, bare.ops, name_line(s, k, row), name_line(t, k, row));
        if row + 1 < bottom_row(s.size) {
            lemma_strips_lines(s, k, row + 1);
            lemma_strips_join(
                page.ops + name_line(s, k, row),
                bare.ops + name_line(t, k, row),
                desc_line(s, k, row + 1),
                desc_line(t, k, row + 1),
            );
        }
    }
}

proof fn lemma_layout_stations<A>(s: AppState<A>, n: nat, page: Page, bare: Page)
    requires
        same_layout(page, bare),
    ensures
        same_layout(with_stations(s, n, page), with_stations(silent(s), n, bare)),
    decreases n,
{
    if n > 0 {
        let before = (n - 1) as nat;
        lemma_layout_stations(s, before, page, bare);
        lemma_layout_station(
            s,
            n - 1,
            with_stations(s, before, page),
            with_stations(silent(s), before, bare),
        );
    }
}

proof fn lemma_layout_categories<A>(s: AppState<A>, n: nat, page: Page, bare: Page)
    requires
        same_layout(page, bare),
    ensures
        same_layout(with_categories(s, n, page), with_categories(silent(s), n, bare)),
    decreases n,
{
    if n > 0 {
        let t = silent(s);
        lemma_layout_categories(s, (n - 1) as nat, page, bare);
        let a = with_categories(s, (n - 1) as nat, page);
        let b = with_categories(t, (n - 1) as nat, bare);
        assert(shown(t) == shown(s));
        if a.row < bottom_row(s.size) {
            let line = category_line(s, n - 1, a.row);
            let bare_line = category_line(t, n - 1, a.row);
            lemma_strips_lines(s, n - 1, a.row);
            lemma_strips_join(a.ops, b.ops, line, bare_line);
            lemma_layout_stations(
                s,
                shown(s).len(),
                Page { ops: a.ops + line, row: a.row + 1 },
                Page { ops: b.ops + bare_line, row: a.row + 1 },
            );
        }
    }
}

proof fn lemma_blanks_start_no_wave(row: int, bottom: int)
    ensures
        forall|i: int| 0 <= i < blanks(row, bottom).len() ==> !starts_wave(
            #[trigger] blanks(row, bottom)[i],
        ),
    decreases bottom - row,
{
    if row < bottom {
        lemma_blanks_start_no_wave(row + 1, bottom);
        assert forall|i: int| 0 <= i < blanks(row, bottom).len() implies !starts_wave(
            #[trigger] blanks(row, bottom)[i],
        ) by {
            if i >= 2 {
                assert(blanks(row, bottom)[i] == blanks(row + 1, bottom)[i - 2]);
            }
        }
    }
}

/// A waveform does not move anything: with it the list ends in the same row as
/// without, and apart from the waveform itself the screen is the same.
pub proof fn law_waveform_moves_nothing<A>(s: AppState<A>)
    ensures
        body(s).row == body(silent(s)).row,
        without_waves(frame(s)) == frame(silent(s)),
{
    let t = silent(s);
    let bottom = bottom_row(s.size);
    let start = Page { ops: seq![], row: FIRST_ROW as int };
    lemma_strips_plain(start.ops);
    lemma_layout_categories(s, categories(s.stations).len(), start, start);
    let top = seq![Draw::MoveTo(0, 0)] + header(s);
    assert(header(t) == header(s)) by {
        assert(now_playing(t) == now_playing(s));
    }
    lemma_strips_plain(top);
    lemma_strips_join(top, top, body(s).ops, body(t).ops);
    let rest = blanks(body(s).row, bottom);
    lemma_blanks_start_no_wave(body(s).row, bottom);
    lemma_strips_plain(rest);
    lemma_strips_join(top + body(s).ops, top + body(t).ops, rest, rest);
    lemma_strips_plain(footer(s.size));
    lemma_strips_join(
        top + body(s).ops + rest,
        top + body(t).ops + rest,
        footer(s.size),
        footer(s.size),
    );
    let nothing = Seq::<Draw>::empty();
    assert(frame(s) =~= frame(s) + nothing);
    assert(frame(t) =~= frame(t) + without_waves(nothing));
    assert(without_waves(frame(s) + nothing) == frame(t) + without_waves(nothing));
}

/// The layout is steady from one waveform to the next: two states of the
/// player that differ in the waveform alone end the list in the same row, and
/// have the same screen apart from the waveform.
pub proof fn law_layout_is_steady<A>(s: AppState<A>, top: Seq<char>, bot: Seq<char>)
    ensures
        ({
            let t = AppState { wave_top: top, wave_bot: bot, ..s };
            &&& body(t).row == body(s).row
            &&& without_waves(frame(t)) == without_waves(frame(s))
        }),
{
    let t = AppState { wave_top: top, wave_bot: bot, ..s };
    law_waveform_moves_nothing(s);
    law_waveform_moves_nothing(t);
    assert(silent(t) == silent(s));
}

/// A waveform keeps to its room, and its room to the terminal.
pub proof fn law_wave_fits(columns: u16, wave: Seq<char>)
    ensures
        cut_wave(wave, wave_width(columns)).len() <= wave_width(columns),
        wave_width(columns) <= MAX_WAVE_WIDTH,
        wave_width(columns) > 0 ==> (WAVE_COL - 1) + wave_width(columns) < columns,
        wave.len() >= wave_width(columns) ==> cut_wave(wave, wave_width(columns)).len()
            == wave_width(columns),
{
}

/// The part of the meter that is shown draws its newest columns.
pub proof fn law_newest_columns_are_shown(dots: Seq<u8>, width: nat)
    ensures
        cut_wave(glyph_text(dots), width) == glyph_text(newest(dots, width)),
{
    assert(cut_wave(glyph_text(dots), width) =~= glyph_text(newest(dots, width)));
}

/// What plays is written into the header only beside the volume, and does not
/// go beyond the right edge, however wide its characters are. It has a column
/// for each of its characters up to that edge, unless they take more: then it
/// ends at the edge.
pub proof fn law_title_fits<A>(s: AppState<A>)
    requires
        title_fits(s),
    ensures
        header(s)[6] matches Draw::MoveTo(column, row) && row == 0 && text_columns(
            header_left(s.volume),
        ) < column && column + text_columns(now_playing(s)) <= s.size.0,
        text_columns(now_playing(s)) <= now_playing(s).len() ==> header(s)[6] == Draw::MoveTo(
            (s.size.0 - now_playing(s).len()) as u16,
            0,
        ),
        text_columns(now_playing(s)) > now_playing(s).len() ==> header(s)[6] == Draw::MoveTo(
            (s.size.0 - text_columns(now_playing(s))) as u16,
            0,
        ),
        header(s)[8] == Draw::Print(now_playing(s)),
{
    law_text_room(now_playing(s));
    law_text_room(header_left(s.volume));
}

/// Where what plays takes no more columns than it has characters, it is
/// written exactly if its characters and those of the left part leave a
/// column free.
pub proof fn law_narrow_titles<A>(s: AppState<A>)
    requires
        text_columns(now_playing(s)) <= now_playing(s).len(),
    ensures
        title_fits(s) <==> s.current is Some && now_playing(s).len() + header_left(s.volume).len()
            < s.size.0,
{
    let left = header_left(s.volume);
    reveal_strlit(" RADIO");
    reveal_strlit("  Vol: ");
    reveal_strlit("  ");
    if let Some(v) = s.volume {
        lemma_decimal_digits(v as nat);
    }
    assert forall|i: int| 0 <= i < left.len() implies char_columns(#[trigger] left[i]) == 1 by {
        if i >= 13 {
            assert(left[i] == decimal(s.volume.unwrap() as nat)[i - 13]);
        }
    }
    law_text_columns(left);
    law_text_room(now_playing(s));
}

/// A braille glyph is one column wide: a waveform takes as many columns as it
/// has glyphs.
pub proof fn law_glyphs_are_one_column(wave: Seq<char>)
    requires
        is_glyph_text(wave),
    ensures
        text_columns(wave) == wave.len(),
{
    law_text_columns(wave);
}

} // verus!
