//! What the screen promises.

use vstd::prelude::*;
use crate::laws::player::{
    is_nth, law_members_are_counted, law_nth_is_unique, named_before, open_category, open_len,
};
use crate::laws::text::{is_notation, law_decimal, law_one_notation};
use crate::player::{lemma_shown, shown, App, AppState};
use crate::screen::{
    blanks, body, bottom_row, category_line, category_part, cut_wave, desc_line, desc_part, footer,
    frame, header, header_left, law_no_leftovers, name_line, name_part, now_playing, play_mark, plays, refresh,
    render, stays, title_fits, wave_part, wave_width, with_categories, with_category, with_station,
    with_stations, Attribute, Canvas, Color, Draw, DrawOp, Page, FIRST_ROW, HINTS,
};
use crate::station::{categories, members, texts, Station};
use crate::text::{decimal, padded, room, spaces, text_room};

verus! {

/// Where the last command to go somewhere went.
pub open spec fn pen(ops: Seq<DrawOp>) -> Option<(u16, u16)>
    decreases ops.len(),
{
    if ops.len() == 0 {
        None
    } else {
        match ops.last() {
            DrawOp::MoveTo(column, row) => Some((column, row)),
            _ => pen(ops.drop_last()),
        }
    }
}

/// How a character looks.
pub struct Look {
    pub color: Option<Color>,
    pub bold: bool,
    pub dim: bool,
    pub reverse: bool,
}

/// A character on the screen.
pub struct Cell {
    pub c: char,
    pub look: Look,
}

/// The usual look.
pub open spec fn usual() -> Look {
    Look { color: None, bold: false, dim: false, reverse: false }
}

/// The usual look in a color.
pub open spec fn colored(color: Color) -> Look {
    Look { color: Some(color), ..usual() }
}

/// The usual look, but dim.
pub open spec fn dimmed() -> Look {
    Look { dim: true, ..usual() }
}

/// The usual look in white and bold.
pub open spec fn strong() -> Look {
    Look { color: Some(Color::White), bold: true, ..usual() }
}

/// The look of what is printed behind these commands.
pub open spec fn look(ops: Seq<DrawOp>) -> Look
    decreases ops.len(),
{
    if ops.len() == 0 {
        usual()
    } else {
        let before = look(ops.drop_last());
        match ops.last() {
            DrawOp::Foreground(color) => Look { color: Some(color), ..before },
            DrawOp::ResetColor => usual(),
            DrawOp::SetAttribute(Attribute::Bold) => Look { bold: true, ..before },
            DrawOp::SetAttribute(Attribute::Dim) => Look { dim: true, ..before },
            DrawOp::SetAttribute(Attribute::Reverse) => Look { reverse: true, ..before },
            DrawOp::SetAttribute(Attribute::Reset) => usual(),
            _ => before,
        }
    }
}

/// A character in a look.
pub open spec fn cell(c: char, ink: Look) -> Cell {
    Cell { c, look: ink }
}

/// A text in one look.
pub open spec fn inked(text: Seq<char>, ink: Look) -> Seq<Cell> {
    text.map_values(|c: char| cell(c, ink))
}

/// What is seen from a position on: all that is printed behind the last
/// command that goes there, up to the next one that goes elsewhere. It is
/// gone if the screen is cleared after that, or its line from a place on that
/// lies before it.
pub open spec fn written(ops: Seq<DrawOp>, column: u16, row: u16) -> Seq<Cell>
    decreases ops.len(),
{
    if ops.len() == 0 {
        seq![]
    } else {
        let before = ops.drop_last();
        match ops.last() {
            DrawOp::MoveTo(c, r) => if c == column && r == row {
                seq![]
            } else {
                written(before, column, row)
            },
            DrawOp::Print(text) => if pen(before) == Some((column, row)) {
                written(before, column, row) + inked(text@, look(before))
            } else {
                written(before, column, row)
            },
            DrawOp::ClearLine => if pen(before) matches Some(at) && at.0 < column && at.1 == row {
                seq![]
            } else {
                written(before, column, row)
            },
            DrawOp::ClearAll => seq![],
            _ => written(before, column, row),
        }
    }
}

spec fn pen_of(ops: Seq<Draw>) -> Option<(u16, u16)>
    decreases ops.len(),
{
    if ops.len() == 0 {
        None
    } else {
        match ops.last() {
            Draw::MoveTo(column, row) => Some((column, row)),
            _ => pen_of(ops.drop_last()),
        }
    }
}

/// The look that a command leaves.
spec fn look_after(before: Look, op: Draw) -> Look {
    match op {
        Draw::Foreground(color) => Look { color: Some(color), ..before },
        Draw::ResetColor => usual(),
        Draw::SetAttribute(Attribute::Bold) => Look { bold: true, ..before },
        Draw::SetAttribute(Attribute::Dim) => Look { dim: true, ..before },
        Draw::SetAttribute(Attribute::Reverse) => Look { reverse: true, ..before },
        Draw::SetAttribute(Attribute::Reset) => usual(),
        _ => before,
    }
}

spec fn look_of(ops: Seq<Draw>) -> Look
    decreases ops.len(),
{
    if ops.len() == 0 {
        usual()
    } else {
        look_after(look_of(ops.drop_last()), ops.last())
    }
}

/// The commands leave the usual look.
spec fn calm(ops: Seq<Draw>) -> bool {
    look_of(ops) == usual()
}

spec fn clears(before: Seq<Draw>, op: Draw, column: u16, row: u16) -> bool {
    op is ClearAll || (op is ClearLine && (pen_of(before) matches Some(at) && at.0 < column && at.1
        == row))
}

spec fn text_at(ops: Seq<Draw>, column: u16, row: u16) -> Seq<Cell>
    decreases ops.len(),
{
    if ops.len() == 0 {
        seq![]
    } else {
        let before = ops.drop_last();
        if ops.last() == Draw::MoveTo(column, row) || clears(before, ops.last(), column, row) {
            seq![]
        } else if pen_of(before) == Some((column, row)) {
            text_at(before, column, row) + inked(print_of(ops.last()), look_of(before))
        } else {
            text_at(before, column, row)
        }
    }
}

spec fn visits(ops: Seq<Draw>, column: u16, row: u16) -> bool
    decreases ops.len(),
{
    ops.len() > 0 && (ops.last() == Draw::MoveTo(column, row) || visits(
        ops.drop_last(),
        column,
        row,
    ))
}

spec fn erases(ops: Seq<Draw>, column: u16, row: u16) -> bool
    decreases ops.len(),
{
    ops.len() > 0 && (clears(ops.drop_last(), ops.last(), column, row) || erases(
        ops.drop_last(),
        column,
        row,
    ))
}

/// The commands begin by going somewhere.
spec fn goes(ops: Seq<Draw>) -> bool {
    ops.len() > 0 ==> ops[0] is MoveTo
}

/// What one command prints.
spec fn print_of(op: Draw) -> Seq<char> {
    match op {
        Draw::Print(text) => text,
        _ => seq![],
    }
}

/// The look behind the first `n` commands.
spec fn look_upto(ops: Seq<Draw>, n: int) -> Look
    decreases n,
{
    if n <= 0 {
        usual()
    } else {
        look_after(look_upto(ops, n - 1), ops[n - 1])
    }
}

/// What the first `n` commands print.
spec fn printed(ops: Seq<Draw>, n: int) -> Seq<Cell>
    decreases n,
{
    if n <= 0 {
        seq![]
    } else {
        printed(ops, n - 1) + inked(print_of(ops[n - 1]), look_upto(ops, n - 1))
    }
}

/// All that is printed.
spec fn prints(ops: Seq<Draw>) -> Seq<Cell> {
    printed(ops, ops.len() as int)
}

spec fn still(ops: Seq<Draw>) -> bool {
    forall|i: int| 0 <= i < ops.len() ==> !((#[trigger] ops[i]) is MoveTo || ops[i] is ClearAll)
}

proof fn lemma_pen(ops: Seq<Draw>, column: u16, row: u16)
    requires
        pen_of(ops) == Some((column, row)),
    ensures
        visits(ops, column, row),
    decreases ops.len(),
{
    if !(ops.last() is MoveTo) {
        lemma_pen(ops.drop_last(), column, row);
    }
}

proof fn lemma_pen_joins(a: Seq<Draw>, b: Seq<Draw>)
    requires
        goes(b),
        b.len() > 0,
    ensures
        pen_of(a + b) == pen_of(b),
    decreases b.len(),
{
    assert((a + b).drop_last() =~= a + b.drop_last());
    if !(b.last() is MoveTo) {
        lemma_pen_joins(a, b.drop_last());
    }
}

proof fn lemma_look_joins(a: Seq<Draw>, b: Seq<Draw>)
    requires
        calm(a),
    ensures
        look_of(a + b) == look_of(b),
    decreases b.len(),
{
    if b.len() == 0 {
        assert(a + b =~= a);
    } else {
        assert((a + b).drop_last() =~= a + b.drop_last());
        lemma_look_joins(a, b.drop_last());
    }
}

proof fn lemma_join(a: Seq<Draw>, b: Seq<Draw>, column: u16, row: u16)
    requires
        goes(b),
        calm(a),
    ensures
        text_at(a + b, column, row) == (if visits(b, column, row) {
            text_at(b, column, row)
        } else if erases(b, column, row) {
            seq![]
        } else {
            text_at(a, column, row)
        }),
        visits(a + b, column, row) == (visits(a, column, row) || visits(b, column, row)),
        erases(a + b, column, row) == (erases(a, column, row) || erases(b, column, row)),
    decreases b.len(),
{
    if b.len() == 0 {
        assert(a + b =~= a);
    } else {
        let front = b.drop_last();
        assert((a + b).drop_last() =~= a + front);
        assert((a + b).last() == b.last());
        lemma_join(a, front, column, row);
        lemma_look_joins(a, front);
        if front.len() > 0 {
            assert(front[0] == b[0]);
            lemma_pen_joins(a, front);
            if pen_of(front) == Some((column, row)) {
                lemma_pen(front, column, row);
            }
        } else {
            assert(a + front =~= a);
            assert(b.last() is MoveTo);
            assert(inked(print_of(b.last()), look_of(a)) =~= Seq::<Cell>::empty());
            assert(inked(print_of(b.last()), look_of(front)) =~= Seq::<Cell>::empty());
            assert(text_at(a, column, row) + Seq::<Cell>::empty() =~= text_at(a, column, row));
        }
    }
}

/// What joined commands write, at all positions.
proof fn lemma_joins(a: Seq<Draw>, b: Seq<Draw>)
    requires
        goes(b),
        calm(a),
    ensures
        forall|c: u16, r: u16| #[trigger]
            text_at(a + b, c, r) == (if visits(b, c, r) {
                text_at(b, c, r)
            } else if erases(b, c, r) {
                seq![]
            } else {
                text_at(a, c, r)
            }),
        forall|c: u16, r: u16| #[trigger]
            visits(a + b, c, r) == (visits(a, c, r) || visits(b, c, r)),
        forall|c: u16, r: u16| #[trigger]
            erases(a + b, c, r) == (erases(a, c, r) || erases(b, c, r)),
        goes(a) ==> goes(a + b),
        calm(b) ==> calm(a + b),
{
    assert forall|c: u16, r: u16| #[trigger]
        text_at(a + b, c, r) == (if visits(b, c, r) {
            text_at(b, c, r)
        } else if erases(b, c, r) {
            seq![]
        } else {
            text_at(a, c, r)
        }) by {
        lemma_join(a, b, c, r);
    }
    assert forall|c: u16, r: u16| #[trigger]
        visits(a + b, c, r) == (visits(a, c, r) || visits(b, c, r)) by {
        lemma_join(a, b, c, r);
    }
    assert forall|c: u16, r: u16| #[trigger]
        erases(a + b, c, r) == (erases(a, c, r) || erases(b, c, r)) by {
        lemma_join(a, b, c, r);
    }
    lemma_look_joins(a, b);
}

proof fn lemma_printed_same(a: Seq<Draw>, b: Seq<Draw>, n: int)
    requires
        n <= a.len(),
        n <= b.len(),
        forall|i: int| 0 <= i < n ==> #[trigger] a[i] == b[i],
    ensures
        printed(a, n) == printed(b, n),
        look_upto(a, n) == look_upto(b, n),
    decreases n,
{
    if n > 0 {
        lemma_printed_same(a, b, n - 1);
        assert(a[n - 1] == b[n - 1]);
    }
}

proof fn lemma_printed_join(a: Seq<Draw>, b: Seq<Draw>, n: int)
    requires
        0 <= n <= b.len(),
        look_upto(a, a.len() as int) == usual(),
    ensures
        printed(a + b, a.len() + n) == prints(a) + printed(b, n),
        look_upto(a + b, a.len() + n) == look_upto(b, n),
    decreases n,
{
    if n == 0 {
        lemma_printed_same(a + b, a, a.len() as int);
        assert(prints(a) + printed(b, n) =~= prints(a));
    } else {
        lemma_printed_join(a, b, n - 1);
        assert((a + b)[a.len() + n - 1] == b[n - 1]);
        assert(printed(a + b, a.len() + n) =~= prints(a) + printed(b, n));
    }
}

proof fn lemma_prints_join(a: Seq<Draw>, b: Seq<Draw>)
    requires
        look_upto(a, a.len() as int) == usual(),
    ensures
        prints(a + b) == prints(a) + prints(b),
        look_upto(a + b, (a + b).len() as int) == look_upto(b, b.len() as int),
{
    lemma_printed_join(a, b, b.len() as int);
}

proof fn lemma_prints_clear(part: Seq<Draw>)
    requires
        look_upto(part, part.len() as int) == usual(),
    ensures
        prints(part + seq![Draw::ClearLine]) == prints(part),
        look_upto(part + seq![Draw::ClearLine], part.len() as int + 1) == usual(),
{
    let clear = seq![Draw::ClearLine];
    reveal_with_fuel(printed, 2);
    reveal_with_fuel(look_upto, 2);
    lemma_prints_join(part, clear);
    assert(prints(part) + prints(clear) =~= prints(part));
}

/// A line: going to a place, and then commands that stay there.
proof fn lemma_line(column: u16, row: u16, rest: Seq<Draw>)
    requires
        still(rest),
    ensures
        ({
            let line = seq![Draw::MoveTo(column, row)] + rest;
            &&& goes(line)
            &&& pen_of(line) == Some((column, row))
            &&& text_at(line, column, row) == prints(rest)
            &&& look_of(line) == look_upto(rest, rest.len() as int)
            &&& forall|c: u16, r: u16| #[trigger]
                visits(line, c, r) <==> c == column && r == row
            &&& forall|c: u16, r: u16| #[trigger]
                erases(line, c, r) <==> column < c && r == row && exists|i: int|
                    0 <= i < rest.len() && #[trigger] rest[i] is ClearLine
        }),
    decreases rest.len(),
{
    let go = seq![Draw::MoveTo(column, row)];
    let line = go + rest;
    if rest.len() == 0 {
        assert(line =~= go);
        assert(go.drop_last() =~= Seq::<Draw>::empty());
        assert forall|c: u16, r: u16| #[trigger] visits(line, c, r) <==> c == column && r
            == row by {
            assert(!visits(go.drop_last(), c, r));
        }
        assert forall|c: u16, r: u16| !#[trigger] erases(line, c, r) by {
            assert(!erases(go.drop_last(), c, r));
        }
        assert(look_of(go.drop_last()) == usual());
    } else {
        let front = rest.drop_last();
        assert(forall|i: int| 0 <= i < front.len() ==> #[trigger] front[i] == rest[i]);
        lemma_line(column, row, front);
        assert(line.drop_last() =~= go + front);
        let last = rest[rest.len() - 1];
        assert(!(last is MoveTo || last is ClearAll));
        assert(line.last() == last);
        lemma_printed_same(rest, front, front.len() as int);
        assert(prints(rest) =~= prints(front) + inked(print_of(last), look_of(go + front)));
        assert forall|c: u16, r: u16| #[trigger] visits(line, c, r) <==> c == column && r
            == row by {
            assert(visits(go + front, c, r) <==> c == column && r == row);
        }
        assert forall|c: u16, r: u16| #[trigger] erases(line, c, r) <==> column < c && r == row
            && exists|i: int| 0 <= i < rest.len() && #[trigger] rest[i] is ClearLine by {
            assert(erases(go + front, c, r) <==> column < c && r == row && exists|i: int|
                0 <= i < front.len() && #[trigger] front[i] is ClearLine);
            if exists|i: int| 0 <= i < rest.len() && #[trigger] rest[i] is ClearLine {
                let i = choose|i: int| 0 <= i < rest.len() && #[trigger] rest[i] is ClearLine;
                if i < front.len() {
                    assert(front[i] is ClearLine);
                }
            }
            if exists|i: int| 0 <= i < front.len() && #[trigger] front[i] is ClearLine {
                let i = choose|i: int| 0 <= i < front.len() && #[trigger] front[i] is ClearLine;
                assert(rest[i] is ClearLine);
            }
        }
    }
}

spec fn mark_text<A>(s: AppState<A>, k: int) -> Seq<Cell> {
    if !plays(s, k) {
        seq![]
    } else if s.paused {
        inked(" ▐▐"@, colored(Color::Yellow))
    } else {
        inked(" ▶"@, colored(Color::Green))
    }
}

spec fn station_text<A>(s: AppState<A>, k: int) -> Seq<Cell> {
    let station = s.stations[shown(s)[k] as int];
    (if k == s.station {
        inked("    "@, usual()) + inked(">"@, colored(Color::Cyan)) + inked(" "@, usual()) + inked(
            padded(station.name@, 30),
            strong(),
        ) + inked(" "@, usual()) + inked(padded(station.quality@, 7), colored(Color::Yellow))
    } else {
        inked("     "@ + padded(station.name@, 30) + " "@, usual()) + inked(
            padded(station.quality@, 7),
            dimmed(),
        )
    }) + mark_text(s, k)
}

spec fn category_text<A>(s: AppState<A>, q: int) -> Seq<Cell> {
    let name = categories(s.stations)[q];
    let size = decimal(members(s.stations, name).len());
    let label = (if q == s.category {
        "▾"@
    } else {
        "▸"@
    }) + " "@ + padded(name, 28);
    if q == s.category && s.station == -1 {
        inked("  "@, usual()) + inked(">"@, colored(Color::Cyan)) + inked(" "@, usual()) + inked(
            label,
            strong(),
        ) + inked("  "@, usual()) + inked(size, dimmed())
    } else {
        inked("   "@, usual()) + inked(label, usual()) + inked("  "@, usual()) + inked(
            size,
            dimmed(),
        )
    }
}

spec fn desc_text<A>(s: AppState<A>, k: int) -> Seq<Cell> {
    if k == s.station {
        inked("      "@, usual()) + inked(s.stations[shown(s)[k] as int].desc@, dimmed())
    } else {
        seq![]
    }
}

spec fn wave_text<A>(s: AppState<A>, k: int, wave: Seq<char>) -> Seq<Cell> {
    if plays(s, k) {
        inked(cut_wave(wave, wave_width(s.size.0)), colored(Color::Green))
    } else {
        seq![]
    }
}

proof fn lemma_category_open<A>(s: AppState<A>, q: int)
    requires
        q == s.category && s.station == -1,
    ensures
        still(category_part(s, q)),
        prints(category_part(s, q)) == category_text(s, q),
        look_upto(category_part(s, q), category_part(s, q).len() as int) == usual(),
{
    let part = category_part(s, q);
    assert(part.len() == 13);
    reveal_with_fuel(look_upto, 14);
    reveal_with_fuel(printed, 14);
    assert(prints(part) =~= category_text(s, q));
}

proof fn lemma_category_closed<A>(s: AppState<A>, q: int)
    requires
        !(q == s.category && s.station == -1),
    ensures
        still(category_part(s, q)),
        prints(category_part(s, q)) == category_text(s, q),
        look_upto(category_part(s, q), category_part(s, q).len() as int) == usual(),
{
    let part = category_part(s, q);
    assert(part.len() == 4);
    reveal_with_fuel(look_upto, 5);
    reveal_with_fuel(printed, 5);
    assert(prints(part) =~= category_text(s, q));
}

proof fn lemma_name_part(station: Station, under_cursor: bool)
    ensures
        still(name_part(station, under_cursor)),
        look_upto(name_part(station, under_cursor), name_part(station, under_cursor).len() as int)
            == usual(),
        prints(name_part(station, under_cursor)) == (if under_cursor {
            inked("    "@, usual()) + inked(">"@, colored(Color::Cyan)) + inked(" "@, usual())
                + inked(padded(station.name@, 30), strong()) + inked(" "@, usual()) + inked(
                padded(station.quality@, 7),
                colored(Color::Yellow),
            )
        } else {
            inked("     "@ + padded(station.name@, 30) + " "@, usual()) + inked(
                padded(station.quality@, 7),
                dimmed(),
            )
        }),
{
    let part = name_part(station, under_cursor);
    if under_cursor {
        assert(part.len() == 13);
        reveal_with_fuel(look_upto, 14);
        reveal_with_fuel(printed, 14);
        assert(prints(part) =~= inked("    "@, usual()) + inked(">"@, colored(Color::Cyan)) + inked(
            " "@,
            usual(),
        ) + inked(padded(station.name@, 30), strong()) + inked(" "@, usual()) + inked(
            padded(station.quality@, 7),
            colored(Color::Yellow),
        ));
    } else {
        assert(part.len() == 4);
        reveal_with_fuel(look_upto, 5);
        reveal_with_fuel(printed, 5);
        assert(prints(part) =~= inked("     "@ + padded(station.name@, 30) + " "@, usual()) + inked(
            padded(station.quality@, 7),
            dimmed(),
        ));
    }
}

proof fn lemma_station_text<A>(s: AppState<A>, k: int)
    ensures
        ({
            let station = s.stations[shown(s)[k] as int];
            let part = name_part(station, k == s.station) + play_mark(s, k);
            &&& still(part)
            &&& look_upto(part, part.len() as int) == usual()
            &&& prints(part) == station_text(s, k)
        }),
{
    let station = s.stations[shown(s)[k] as int];
    let name = name_part(station, k == s.station);
    let mark = play_mark(s, k);
    lemma_name_part(station, k == s.station);
    assert(prints(mark) =~= mark_text(s, k) && look_upto(mark, mark.len() as int) == usual()) by {
        reveal_with_fuel(look_upto, 4);
        reveal_with_fuel(printed, 4);
    }
    lemma_prints_join(name, mark);
    assert(still(mark));
    let part = name + mark;
    assert forall|i: int| 0 <= i < part.len() implies !((#[trigger] part[i]) is MoveTo || part[i]
        is ClearAll) by {
        if i < name.len() {
            assert(part[i] == name[i]);
        } else {
            assert(part[i] == mark[i - name.len()]);
        }
    }
}

proof fn lemma_desc_text<A>(s: AppState<A>, k: int)
    ensures
        still(desc_part(s, k)),
        look_upto(desc_part(s, k), desc_part(s, k).len() as int) == usual(),
        prints(desc_part(s, k)) == desc_text(s, k),
{
    reveal_with_fuel(look_upto, 6);
    reveal_with_fuel(printed, 6);
    assert(prints(desc_part(s, k)) =~= desc_text(s, k));
}

proof fn lemma_category_line<A>(s: AppState<A>, q: int, row: int)
    requires
        0 <= row < 0x10000,
    ensures
        ({
            let line = category_line(s, q, row);
            &&& goes(line) && calm(line)
            &&& text_at(line, 0, row as u16) == category_text(s, q)
            &&& forall|c: u16, r: u16| #[trigger]
                visits(line, c, r) <==> c == 0 && r == row
            &&& forall|c: u16, r: u16| #[trigger]
                erases(line, c, r) ==> c > 0 && r == row
        }),
{
    let part = category_part(s, q);
    let rest = part + seq![Draw::ClearLine];
    if q == s.category && s.station == -1 {
        lemma_category_open(s, q);
    } else {
        lemma_category_closed(s, q);
    }
    lemma_prints_clear(part);
    lemma_still_clear(part);
    lemma_line(0, row as u16, rest);
    assert(category_line(s, q, row) =~= seq![Draw::MoveTo(0, row as u16)] + rest);
}

proof fn lemma_still_clear(part: Seq<Draw>)
    requires
        still(part),
    ensures
        still(part + seq![Draw::ClearLine]),
        (part + seq![Draw::ClearLine])[part.len() as int] is ClearLine,
{
    let rest = part + seq![Draw::ClearLine];
    assert forall|i: int| 0 <= i < rest.len() implies !((#[trigger] rest[i]) is MoveTo || rest[i]
        is ClearAll) by {
        if i < part.len() {
            assert(rest[i] == part[i]);
        }
    }
}

proof fn lemma_wave_part<A>(s: AppState<A>, k: int, wave: Seq<char>, row: int)
    requires
        0 <= row < 0x10000,
    ensures
        ({
            let part = wave_part(s, k, wave, row);
            &&& goes(part) && calm(part)
            &&& visits(part, 47, row as u16) ==> text_at(part, 47, row as u16) == wave_text(
                s,
                k,
                wave,
            )
            &&& !visits(part, 47, row as u16) ==> wave_text(s, k, wave).len() == 0
            &&& visits(part, 47, row as u16) ==> plays(s, k)
            &&& forall|c: u16, r: u16| #[trigger]
                visits(part, c, r) ==> c == 47 && r == row
            &&& forall|c: u16, r: u16| !#[trigger] erases(part, c, r)
        }),
{
    let part = wave_part(s, k, wave, row);
    if part.len() > 0 {
        let rest = seq![
            Draw::Foreground(Color::Green),
            Draw::Print(cut_wave(wave, wave_width(s.size.0))),
            Draw::ResetColor,
        ];
        reveal_with_fuel(look_upto, 4);
        reveal_with_fuel(printed, 4);
        assert(prints(rest) =~= wave_text(s, k, wave));
        lemma_line(47, row as u16, rest);
        assert(part =~= seq![Draw::MoveTo(47, row as u16)] + rest);
    }
}

proof fn lemma_name_line<A>(s: AppState<A>, k: int, row: int)
    requires
        0 <= row < 0x10000,
    ensures
        ({
            let line = name_line(s, k, row);
            &&& goes(line) && calm(line)
            &&& visits(line, 0, row as u16)
            &&& text_at(line, 0, row as u16) == station_text(s, k)
            &&& visits(line, 47, row as u16) ==> plays(s, k) && text_at(line, 47, row as u16)
                == wave_text(s, k, s.wave_top)
            &&& !visits(line, 47, row as u16) ==> wave_text(s, k, s.wave_top).len() == 0
            &&& erases(line, 47, row as u16)
            &&& forall|c: u16, r: u16| #[trigger]
                visits(line, c, r) ==> r == row && (c == 0 || c == 47)
            &&& forall|c: u16, r: u16| #[trigger]
                erases(line, c, r) ==> c > 0 && r == row
        }),
{
    let station = s.stations[shown(s)[k] as int];
    let part = name_part(station, k == s.station) + play_mark(s, k);
    let rest = part + seq![Draw::ClearLine];
    let go = seq![Draw::MoveTo(0, row as u16)];
    lemma_station_text(s, k);
    lemma_prints_clear(part);
    lemma_still_clear(part);
    lemma_line(0, row as u16, rest);
    lemma_wave_part(s, k, s.wave_top, row);
    assert(erases(go + rest, 47, row as u16));
    lemma_joins(go + rest, wave_part(s, k, s.wave_top, row));
    assert(name_line(s, k, row) =~= (go + rest) + wave_part(s, k, s.wave_top, row));
}

proof fn lemma_desc_line<A>(s: AppState<A>, k: int, row: int)
    requires
        0 <= row < 0x10000,
    ensures
        ({
            let line = desc_line(s, k, row);
            &&& goes(line) && calm(line)
            &&& visits(line, 0, row as u16)
            &&& text_at(line, 0, row as u16) == desc_text(s, k)
            &&& visits(line, 47, row as u16) ==> plays(s, k) && text_at(line, 47, row as u16)
                == wave_text(s, k, s.wave_bot)
            &&& !visits(line, 47, row as u16) ==> wave_text(s, k, s.wave_bot).len() == 0
            &&& forall|c: u16, r: u16| #[trigger]
                visits(line, c, r) ==> r == row && (c == 0 || c == 47)
            &&& forall|c: u16, r: u16| #[trigger]
                erases(line, c, r) ==> c > 0 && r == row
        }),
{
    let go = seq![Draw::MoveTo(0, row as u16)];
    lemma_desc_text(s, k);
    lemma_line(0, row as u16, desc_part(s, k));
    lemma_wave_part(s, k, s.wave_bot, row);
    lemma_joins(go + desc_part(s, k), wave_part(s, k, s.wave_bot, row));
    assert(desc_line(s, k, row) =~= (go + desc_part(s, k)) + wave_part(s, k, s.wave_bot, row));
}

/// How many rows the `k`-th station takes.
spec fn rows_of<A>(s: AppState<A>, k: int) -> int {
    if k == s.station || plays(s, k) {
        2
    } else {
        1
    }
}

/// The row of the `k`-th station.
spec fn row_of<A>(s: AppState<A>, k: int) -> int
    decreases k,
{
    if k <= 0 {
        FIRST_ROW + s.category + 1
    } else {
        row_of(s, k - 1) + rows_of(s, k - 1)
    }
}

/// The row of the `q`-th category.
spec fn category_row_of<A>(s: AppState<A>, q: int) -> int {
    if q <= s.category {
        FIRST_ROW + q
    } else {
        row_of(s, shown(s).len() as int) + (q - s.category - 1)
    }
}

spec fn least(a: int, b: int) -> int {
    if a <= b {
        a
    } else {
        b
    }
}

/// The rows of the `k`-th station hold what they should, as far as there are
/// rows.
spec fn station_drawn<A>(s: AppState<A>, ops: Seq<Draw>, k: int) -> bool {
    let row = row_of(s, k);
    let bottom = bottom_row(s.size);
    &&& row < bottom ==> text_at(ops, 0, row as u16) == station_text(s, k) && text_at(
        ops,
        47,
        row as u16,
    ) == wave_text(s, k, s.wave_top)
    &&& row + 1 < bottom && rows_of(s, k) == 2 ==> text_at(ops, 0, (row + 1) as u16) == desc_text(
        s,
        k,
    ) && text_at(ops, 47, (row + 1) as u16) == wave_text(s, k, s.wave_bot)
}

/// Nothing is written into the waveform's place from `row` on.
spec fn no_wave_from(ops: Seq<Draw>, row: int) -> bool {
    forall|r: u16| r >= row ==> (#[trigger] text_at(ops, 47, r)).len() == 0
}

/// The waveform's place is used beside the first `n` stations only where one
/// of them plays.
spec fn waves_only<A>(s: AppState<A>, ops: Seq<Draw>, n: int, from: int) -> bool {
    forall|r: u16|
        r >= from && (#[trigger] text_at(ops, 47, r)).len() > 0 ==> exists|k: int|
            0 <= k < n && plays(s, k) && (r == #[trigger] row_of(s, k) || r == row_of(s, k) + 1)
}

proof fn lemma_row_grows<A>(s: AppState<A>, j: int, k: int)
    requires
        0 <= j < k,
    ensures
        row_of(s, j) + rows_of(s, j) <= row_of(s, k),
        row_of(s, 0) <= row_of(s, j),
    decreases k,
{
    if j < k - 1 {
        lemma_row_grows(s, j, k - 1);
    }
    if j > 0 {
        lemma_row_grows(s, 0, j);
    }
}

/// What `lemma_stations` says of a page.
spec fn stations_drawn<A>(s: AppState<A>, n: int, from: Page, page: Page) -> bool {
    &&& goes(page.ops) && calm(page.ops)
    &&& page.row == least(row_of(s, n), bottom_row(s.size))
    &&& forall|k: int| 0 <= k < n ==> #[trigger] station_drawn(s, page.ops, k)
    &&& forall|c: u16, r: u16|
        r < from.row ==> #[trigger] text_at(page.ops, c, r) == text_at(from.ops, c, r)
    &&& no_wave_from(page.ops, page.row)
    &&& waves_only(s, page.ops, n, from.row)
}

proof fn lemma_station_step<A>(s: AppState<A>, n: int, from: Page, page: Page)
    requires
        0 <= n,
        0 <= s.category,
        from.row == row_of(s, 0) <= bottom_row(s.size),
        stations_drawn(s, n, from, page),
        page.row < bottom_row(s.size),
    ensures
        stations_drawn(s, n + 1, from, with_station(s, n, page)),
{
    let bottom = bottom_row(s.size);
    let row = page.row;
    let next = with_station(s, n, page);
    let line = name_line(s, n, row);
    let named = page.ops + line;
    if n > 0 {
        lemma_row_grows(s, 0, n);
    }
    lemma_name_line(s, n, row);
    lemma_joins(page.ops, line);
    let two = row + 1 < bottom;
    let second = desc_line(s, n, row + 1);
    if two {
        lemma_desc_line(s, n, row + 1);
        lemma_joins(named, second);
    }
    assert(next.ops == if two {
        named + second
    } else {
        named
    });
    assert(row_of(s, n + 1) == row_of(s, n) + rows_of(s, n));
    assert(text_at(page.ops, 47, row as u16).len() == 0);
    assert forall|c: u16, r: u16| r < row implies #[trigger] text_at(next.ops, c, r) == text_at(
        page.ops,
        c,
        r,
    ) by {
        assert(text_at(named, c, r) == text_at(page.ops, c, r));
    }
    assert(text_at(named, 0, row as u16) == station_text(s, n));
    assert(text_at(named, 47, row as u16) =~= wave_text(s, n, s.wave_top));
    assert(text_at(next.ops, 0, row as u16) == station_text(s, n));
    assert(text_at(next.ops, 47, row as u16) == wave_text(s, n, s.wave_top));
    if two {
        let below = (row + 1) as u16;
        assert(text_at(named, 47, below) == text_at(page.ops, 47, below));
        assert(text_at(page.ops, 47, below).len() == 0);
        assert(text_at(next.ops, 47, below) =~= wave_text(s, n, s.wave_bot));
        assert(text_at(next.ops, 0, below) == desc_text(s, n));
    }
    assert(station_drawn(s, next.ops, n));
    assert forall|k: int| 0 <= k < n + 1 implies #[trigger] station_drawn(s, next.ops, k) by {
        if k < n {
            assert(station_drawn(s, page.ops, k));
            lemma_row_grows(s, k, n);
        }
    }
    assert forall|r: u16| r >= next.row implies (#[trigger] text_at(next.ops, 47, r)).len() == 0 by {
        assert(text_at(page.ops, 47, r).len() == 0);
        assert(text_at(named, 47, r) == text_at(page.ops, 47, r));
    }
    assert forall|r: u16|
        r >= from.row && (#[trigger] text_at(next.ops, 47, r)).len() > 0 implies exists|k: int|
        0 <= k < n + 1 && plays(s, k) && (r == #[trigger] row_of(s, k) || r == row_of(s, k)
            + 1) by {
        if r < row {
            assert(text_at(page.ops, 47, r).len() > 0);
            let k = choose|k: int|
                0 <= k < n && plays(s, k) && (r == #[trigger] row_of(s, k) || r == row_of(s, k)
                    + 1);
            assert(r == row_of(s, k) || r == row_of(s, k) + 1);
        } else {
            assert(text_at(page.ops, 47, r).len() == 0);
            assert(row_of(s, n) == row);
            assert(text_at(named, 47, r) == text_at(page.ops, 47, r) || r == row);
        }
    }
}

proof fn lemma_stations<A>(s: AppState<A>, n: nat, from: Page)
    requires
        0 <= s.category,
        goes(from.ops) && calm(from.ops),
        from.row == row_of(s, 0) <= bottom_row(s.size),
        no_wave_from(from.ops, from.row),
    ensures
        stations_drawn(s, n as int, from, with_stations(s, n, from)),
    decreases n,
{
    if n > 0 {
        let m = (n - 1) as nat;
        let page = with_stations(s, m, from);
        lemma_stations(s, m, from);
        if page.row < bottom_row(s.size) {
            lemma_station_step(s, m as int, from, page);
        } else {
            assert(row_of(s, n as int) >= row_of(s, m as int) >= bottom_row(s.size));
            assert forall|k: int| 0 <= k < n implies #[trigger] station_drawn(s, page.ops, k) by {}
            assert forall|r: u16|
                r >= from.row && (#[trigger] text_at(page.ops, 47, r)).len() > 0 implies exists|
                k: int,
            |
                0 <= k < n && plays(s, k) && (r == #[trigger] row_of(s, k) || r == row_of(s, k)
                    + 1) by {
                let k = choose|k: int|
                    0 <= k < m && plays(s, k) && (r == #[trigger] row_of(s, k) || r == row_of(
                        s,
                        k,
                    ) + 1);
                assert(r == row_of(s, k) || r == row_of(s, k) + 1);
            }
        }
    }
}

spec fn category_drawn<A>(s: AppState<A>, ops: Seq<Draw>, q: int) -> bool {
    category_row_of(s, q) < bottom_row(s.size) ==> text_at(ops, 0, category_row_of(s, q) as u16)
        == category_text(s, q)
}

/// What `lemma_categories` says of a page.
spec fn categories_drawn<A>(s: AppState<A>, n: int, page: Page) -> bool {
    let bottom = bottom_row(s.size);
    &&& goes(page.ops) && calm(page.ops)
    &&& page.row == least(category_row_of(s, n), bottom)
    &&& forall|q: int| 0 <= q < n ==> #[trigger] category_drawn(s, page.ops, q)
    &&& n > s.category ==> forall|k: int|
        0 <= k < shown(s).len() ==> #[trigger] station_drawn(s, page.ops, k)
    &&& no_wave_from(page.ops, page.row)
    &&& waves_only(
        s,
        page.ops,
        if n > s.category {
            shown(s).len() as int
        } else {
            0
        },
        FIRST_ROW as int,
    )
    &&& forall|c: u16, r: u16| r < FIRST_ROW ==> !#[trigger] visits(page.ops, c, r)
    &&& forall|c: u16, r: u16| #[trigger] visits(page.ops, c, r) ==> r < bottom && (c == 0 || c == 47)
    &&& forall|c: u16, r: u16| #[trigger] erases(page.ops, c, r) ==> FIRST_ROW <= r
}

proof fn lemma_category_rows<A>(s: AppState<A>, j: int, q: int)
    requires
        0 <= j < q,
        0 <= s.category,
    ensures
        category_row_of(s, j) < category_row_of(s, q),
        FIRST_ROW <= category_row_of(s, j),
        j == s.category ==> row_of(s, shown(s).len() as int) <= category_row_of(s, q),
{
    let n = shown(s).len() as int;
    if n > 0 {
        lemma_row_grows(s, 0, n);
    }
}

proof fn lemma_stations_visit<A>(s: AppState<A>, n: nat, from: Page)
    requires
        0 <= from.row,
        calm(from.ops),
    ensures
        ({
            let page = with_stations(s, n, from);
            &&& from.row <= page.row
            &&& calm(page.ops)
            &&& forall|c: u16, r: u16| #[trigger]
                visits(page.ops, c, r) ==> visits(from.ops, c, r) || (from.row <= r < bottom_row(
                    s.size,
                ) && (c == 0 || c == 47))
            &&& forall|c: u16, r: u16| #[trigger]
                erases(page.ops, c, r) ==> erases(from.ops, c, r) || from.row <= r
        }),
    decreases n,
{
    if n > 0 {
        let m = (n - 1) as nat;
        let page = with_stations(s, m, from);
        let bottom = bottom_row(s.size);
        lemma_stations_visit(s, m, from);
        if page.row < bottom {
            lemma_name_line(s, n - 1, page.row);
            lemma_joins(page.ops, name_line(s, n - 1, page.row));
            if page.row + 1 < bottom {
                lemma_desc_line(s, n - 1, page.row + 1);
                lemma_joins(
                    page.ops + name_line(s, n - 1, page.row),
                    desc_line(s, n - 1, page.row + 1),
                );
            }
        }
    }
}

proof fn lemma_category_step<A>(s: AppState<A>, n: int, page: Page)
    requires
        0 <= n,
        0 <= s.category,
        categories_drawn(s, n, page),
        page.row < bottom_row(s.size),
    ensures
        categories_drawn(s, n + 1, with_category(s, n, page)),
{
    let bottom = bottom_row(s.size);
    let row = page.row;
    let line = category_line(s, n, row);
    let titled = Page { ops: page.ops + line, row: row + 1 };
    let next = with_category(s, n, page);
    let len = shown(s).len();
    lemma_category_rows(s, n, n + 1);
    lemma_category_line(s, n, row);
    lemma_joins(page.ops, line);
    assert(visits(line, 0, row as u16));
    assert(text_at(titled.ops, 0, row as u16) == category_text(s, n));
    assert forall|c: u16, r: u16| r != row implies #[trigger] text_at(titled.ops, c, r) == text_at(
        page.ops,
        c,
        r,
    ) by {}
    assert forall|r: u16| #[trigger] text_at(titled.ops, 47, r) == text_at(page.ops, 47, r) by {}
    assert(no_wave_from(titled.ops, row + 1)) by {
        assert forall|r: u16| r >= row + 1 implies (#[trigger] text_at(
            titled.ops,
            47,
            r,
        )).len() == 0 by {
            assert(text_at(page.ops, 47, r).len() == 0);
        }
    }
    if n == s.category {
        lemma_stations(s, len, titled);
        lemma_stations_visit(s, len, titled);
        if len > 0 {
            lemma_row_grows(s, 0, len as int);
        }
        assert forall|c: u16, r: u16| r <= row implies #[trigger] text_at(next.ops, c, r)
            == text_at(titled.ops, c, r) by {}
    }
    assert forall|q: int| 0 <= q < n + 1 implies #[trigger] category_drawn(s, next.ops, q) by {
        if q < n {
            assert(category_drawn(s, page.ops, q));
            lemma_category_rows(s, q, n);
        }
        assert(category_row_of(s, n) == row);
    }
    if n > s.category {
        assert forall|k: int| 0 <= k < len implies #[trigger] station_drawn(s, next.ops, k) by {
            assert(station_drawn(s, page.ops, k));
            lemma_row_grows(s, k, len as int);
            lemma_category_rows(s, s.category, n);
        }
    }
    assert forall|r: u16| r >= FIRST_ROW && (#[trigger] text_at(next.ops, 47, r)).len() > 0
        implies exists|k: int|
        0 <= k < (if n + 1 > s.category {
            len as int
        } else {
            0
        }) && plays(s, k) && (r == #[trigger] row_of(s, k) || r == row_of(s, k) + 1) by {
        if n == s.category && r >= titled.row {
            let k = choose|k: int|
                0 <= k < len && plays(s, k) && (r == #[trigger] row_of(s, k) || r == row_of(s, k)
                    + 1);
            assert(r == row_of(s, k) || r == row_of(s, k) + 1);
        } else {
            assert(text_at(next.ops, 47, r) == text_at(page.ops, 47, r));
            let bound = if n > s.category {
                len as int
            } else {
                0
            };
            let k = choose|k: int|
                0 <= k < bound && plays(s, k) && (r == #[trigger] row_of(s, k) || r == row_of(
                    s,
                    k,
                ) + 1);
            assert(r == row_of(s, k) || r == row_of(s, k) + 1);
        }
    }
}

proof fn lemma_categories<A>(s: AppState<A>, n: nat)
    requires
        0 <= s.category,
        FIRST_ROW < bottom_row(s.size),
    ensures
        categories_drawn(
            s,
            n as int,
            with_categories(s, n, Page { ops: seq![], row: FIRST_ROW as int }),
        ),
    decreases n,
{
    let start = Page { ops: seq![], row: FIRST_ROW as int };
    if n > 0 {
        let m = (n - 1) as nat;
        let page = with_categories(s, m, start);
        lemma_categories(s, m);
        lemma_category_rows(s, m as int, n as int);
        if page.row < bottom_row(s.size) {
            lemma_category_step(s, m as int, page);
        } else {
            let len = shown(s).len() as int;
            if m == s.category {
                assert forall|k: int| 0 <= k < len implies #[trigger] station_drawn(
                    s,
                    page.ops,
                    k,
                ) by {
                    if k > 0 {
                        lemma_row_grows(s, 0, k);
                    }
                }
            }
            assert forall|q: int| 0 <= q < n implies #[trigger] category_drawn(
                s,
                page.ops,
                q,
            ) by {}
            assert forall|r: u16| r >= FIRST_ROW && (#[trigger] text_at(page.ops, 47, r)).len() > 0
                implies exists|k: int|
                0 <= k < (if n > s.category {
                    len
                } else {
                    0
                }) && plays(s, k) && (r == #[trigger] row_of(s, k) || r == row_of(s, k) + 1) by {
                let bound = if m > s.category {
                    len
                } else {
                    0
                };
                let k = choose|k: int|
                    0 <= k < bound && plays(s, k) && (r == #[trigger] row_of(s, k) || r == row_of(
                        s,
                        k,
                    ) + 1);
                assert(r == row_of(s, k) || r == row_of(s, k) + 1);
            }
        }
    }
}

proof fn lemma_blank_rows(row: int, bottom: int)
    requires
        0 <= row,
        bottom < 0x10000,
    ensures
        goes(blanks(row, bottom)),
        calm(blanks(row, bottom)),
        forall|c: u16, r: u16| #[trigger]
            visits(blanks(row, bottom), c, r) ==> c == 0 && row <= r < bottom,
        forall|c: u16, r: u16| #[trigger]
            erases(blanks(row, bottom), c, r) ==> c > 0 && row <= r < bottom,
        forall|c: u16, r: u16| (#[trigger] text_at(blanks(row, bottom), c, r)).len() == 0,
        forall|r: u16| row <= r < bottom ==> #[trigger] visits(blanks(row, bottom), 0, r),
    decreases bottom - row,
{
    if row < bottom {
        let line = seq![Draw::MoveTo(0, row as u16)] + seq![Draw::ClearLine];
        let rest = blanks(row + 1, bottom);
        lemma_blank_rows(row + 1, bottom);
        lemma_line(0, row as u16, seq![Draw::ClearLine]);
        assert(look_upto(seq![Draw::ClearLine], 1) == usual()) by {
            reveal_with_fuel(look_upto, 2);
        }
        lemma_joins(line, rest);
        assert(blanks(row, bottom) =~= line + rest);
        reveal_with_fuel(printed, 2);
        assert(text_at(line, 0, row as u16).len() == 0);
        assert forall|c: u16, r: u16| (#[trigger] text_at(blanks(row, bottom), c, r)).len()
            == 0 by {
            if !visits(line, c, r) {
                lemma_unvisited(line, c, r);
            }
            assert(text_at(rest, c, r).len() == 0);
        }
        assert forall|r: u16| row <= r < bottom implies #[trigger] visits(
            blanks(row, bottom),
            0,
            r,
        ) by {
            if r > row {
                assert(visits(rest, 0, r));
            } else {
                assert(visits(line, 0, r));
            }
        }
    } else {
        assert forall|c: u16, r: u16| (#[trigger] text_at(blanks(row, bottom), c, r)).len()
            == 0 by {
            lemma_empty(c, r);
        }
    }
}

/// The look of the footer.
pub open spec fn footer_look() -> Look {
    Look { reverse: true, ..dimmed() }
}

/// The look of the header.
pub open spec fn header_look() -> Look {
    Look { reverse: true, bold: true, ..usual() }
}

proof fn lemma_footer(size: (u16, u16))
    ensures
        goes(footer(size)),
        text_at(footer(size), 0, bottom_row(size) as u16) == inked(
            HINTS@ + spaces(size.0 - HINTS@.len()),
            footer_look(),
        ),
        forall|c: u16, r: u16| #[trigger]
            visits(footer(size), c, r) <==> c == 0 && r == bottom_row(size),
        forall|c: u16, r: u16| !#[trigger] erases(footer(size), c, r),
{
    let row = bottom_row(size) as u16;
    let rest = seq![
        Draw::SetAttribute(Attribute::Reverse),
        Draw::SetAttribute(Attribute::Dim),
        Draw::Print(HINTS@),
        Draw::Print(spaces(size.0 - HINTS@.len())),
        Draw::ResetColor,
    ];
    reveal_with_fuel(look_upto, 6);
    reveal_with_fuel(printed, 6);
    assert(prints(rest) =~= inked(HINTS@ + spaces(size.0 - HINTS@.len()), footer_look()));
    lemma_line(0, row, rest);
    assert(footer(size) =~= seq![Draw::MoveTo(0, row)] + rest);
}

proof fn lemma_header<A>(s: AppState<A>)
    requires
        s.size.0 > 0,
    ensures
        ({
            let ops = header(s);
            let column = (s.size.0 - text_room(now_playing(s))) as u16;
            let title = Look { color: Some(Color::Green), ..header_look() };
            &&& goes(ops) && calm(ops)
            &&& visits(ops, 0, 0)
            &&& text_at(ops, 0, 0) == inked(header_left(s.volume), header_look())
            &&& title_fits(s) ==> column > 0 && text_at(ops, column, 0) == inked(
                now_playing(s),
                title,
            ) && visits(ops, column, 0)
            &&& forall|c: u16, r: u16| #[trigger]
                visits(ops, c, r) ==> r == 0 && (c == 0 || (title_fits(s) && c == column))
            &&& forall|c: u16, r: u16| !#[trigger] erases(ops, c, r)
            &&& text_at(ops.take(4), 0, 0) == inked(spaces(s.size.0 as int), header_look())
        }),
{
    let column = (s.size.0 - text_room(now_playing(s))) as u16;
    let title = Look { color: Some(Color::Green), ..header_look() };
    let ops = header(s);
    let n = ops.len() as int;
    let bar = seq![
        Draw::SetAttribute(Attribute::Reverse),
        Draw::SetAttribute(Attribute::Bold),
        Draw::Print(spaces(s.size.0 as int)),
    ];
    lemma_line(0, 0, bar);
    reveal_with_fuel(look_upto, 4);
    reveal_with_fuel(printed, 4);
    assert(prints(bar) =~= inked(spaces(s.size.0 as int), header_look()));
    assert(ops.take(4) =~= seq![Draw::MoveTo(0, 0)] + bar);
    lemma_step(ops, 4);
    lemma_step(ops, 5);
    assert(ops[4] == Draw::MoveTo(0, 0));
    assert(ops[5] == Draw::Print(header_left(s.volume)));
    assert(text_at(ops.take(6), 0, 0) =~= inked(header_left(s.volume), header_look()));
    lemma_step(ops, 6);
    lemma_step(ops, 7);
    if title_fits(s) {
        assert(n == 11);
        assert(ops[6] == Draw::MoveTo(column, 0));
        assert(ops[7] == Draw::Foreground(Color::Green));
        assert(ops[8] == Draw::Print(now_playing(s)));
        lemma_step(ops, 8);
        lemma_step(ops, 9);
        lemma_step(ops, 10);
        assert(text_at(ops.take(9), column, 0) =~= inked(now_playing(s), title));
        assert(ops[9] == Draw::SetAttribute(Attribute::Reset));
        assert(ops[10] == Draw::ResetColor);
        assert(text_at(ops.take(11), column, 0) =~= text_at(ops.take(9), column, 0));
        assert(text_at(ops.take(11), 0, 0) =~= text_at(ops.take(6), 0, 0));
    } else {
        assert(n == 8);
        assert(ops[6] == Draw::SetAttribute(Attribute::Reset));
        assert(ops[7] == Draw::ResetColor);
        assert(text_at(ops.take(8), 0, 0) =~= text_at(ops.take(6), 0, 0));
    }
    assert(ops.take(n) =~= ops);
}

/// One command more.
proof fn lemma_step(ops: Seq<Draw>, n: int)
    requires
        0 <= n < ops.len(),
    ensures
        ({
            let a = ops.take(n);
            let b = ops.take(n + 1);
            &&& look_of(b) == look_after(look_of(a), ops[n])
            &&& pen_of(b) == (match ops[n] {
                Draw::MoveTo(c, r) => Some((c, r)),
                _ => pen_of(a),
            })
            &&& forall|c: u16, r: u16| #[trigger]
                visits(b, c, r) <==> ops[n] == Draw::MoveTo(c, r) || visits(a, c, r)
            &&& forall|c: u16, r: u16| #[trigger]
                erases(b, c, r) <==> clears(a, ops[n], c, r) || erases(a, c, r)
            &&& forall|c: u16, r: u16| #[trigger]
                text_at(b, c, r) == (if ops[n] == Draw::MoveTo(c, r) || clears(a, ops[n], c, r) {
                    seq![]
                } else if pen_of(a) == Some((c, r)) {
                    text_at(a, c, r) + inked(print_of(ops[n]), look_of(a))
                } else {
                    text_at(a, c, r)
                })
        }),
{
    assert(ops.take(n + 1).drop_last() =~= ops.take(n));
    assert(ops.take(n + 1).last() == ops[n]);
}

/// What the whole screen holds.
spec fn frame_drawn<A>(s: AppState<A>, ops: Seq<Draw>) -> bool {
    let bottom = bottom_row(s.size);
    let column = (s.size.0 - text_room(now_playing(s))) as u16;
    let title = Look { color: Some(Color::Green), ..header_look() };
    &&& text_at(ops, 0, bottom as u16) == inked(
        HINTS@ + spaces(s.size.0 - HINTS@.len()),
        footer_look(),
    )
    &&& bottom > 0 && s.size.0 > 0 ==> text_at(ops, 0, 0) == inked(
        header_left(s.volume),
        header_look(),
    ) && (title_fits(s) ==> text_at(ops, column, 0) == inked(now_playing(s), title)) && forall|
        c: u16,
    |
        c > 0 && !(title_fits(s) && c == column) ==> (#[trigger] text_at(ops, c, 0)).len() == 0
    &&& FIRST_ROW < bottom ==> (forall|q: int|
        0 <= q < categories(s.stations).len() ==> #[trigger] category_drawn(s, ops, q)) && (forall|
        k: int,
    |
        0 <= k < shown(s).len() ==> #[trigger] station_drawn(s, ops, k)) && waves_only(
        s,
        ops,
        shown(s).len() as int,
        FIRST_ROW as int,
    )
    &&& forall|c: u16, r: u16|
        FIRST_ROW <= r && c != 0 && c != 47 ==> (#[trigger] text_at(ops, c, r)).len() == 0
    &&& forall|c: u16, r: u16|
        r < FIRST_ROW && 0 < r && r != bottom ==> (#[trigger] text_at(ops, c, r)).len() == 0
    &&& forall|r: u16|
        body(s).row <= r && r != bottom ==> (#[trigger] text_at(ops, 0, r)).len() == 0
    &&& s.size.0 > 0 ==> text_at(ops.take(5), 0, 0) == inked(
        spaces(s.size.0 as int),
        header_look(),
    )
    &&& !erases(ops, 0, 0)
}

proof fn lemma_body_small<A>(s: AppState<A>, n: nat)
    requires
        bottom_row(s.size) <= FIRST_ROW,
    ensures
        with_categories(s, n, Page { ops: seq![], row: FIRST_ROW as int }) == (Page {
            ops: seq![],
            row: FIRST_ROW as int,
        }),
    decreases n,
{
    if n > 0 {
        lemma_body_small(s, (n - 1) as nat);
    }
}

proof fn lemma_empty(c: u16, r: u16)
    ensures
        text_at(Seq::<Draw>::empty(), c, r) == Seq::<Cell>::empty(),
        !visits(Seq::<Draw>::empty(), c, r),
        !erases(Seq::<Draw>::empty(), c, r),
{
}

proof fn lemma_unvisited(ops: Seq<Draw>, c: u16, r: u16)
    requires
        !visits(ops, c, r),
    ensures
        text_at(ops, c, r).len() == 0,
    decreases ops.len(),
{
    if ops.len() > 0 {
        lemma_unvisited(ops.drop_last(), c, r);
        if pen_of(ops.drop_last()) == Some((c, r)) {
            lemma_pen(ops.drop_last(), c, r);
        }
    }
}

proof fn lemma_frame<A>(s: AppState<A>)
    requires
        0 <= s.category < categories(s.stations).len(),
    ensures
        frame_drawn(s, frame(s)),
{
    let bottom = bottom_row(s.size);
    let go = seq![Draw::MoveTo(0, 0)];
    let list = body(s).ops;
    let rest = blanks(body(s).row, bottom);
    let foot = footer(s.size);
    let n = categories(s.stations).len();
    lemma_line(0, 0, seq![]);
    assert(go =~= go + Seq::<Draw>::empty());
    if s.size.0 > 0 {
        lemma_header(s);
    } else {
        assert forall|c: u16, r: u16| !#[trigger] erases(header(s), c, r) by {
            lemma_empty(c, r);
        }
        assert forall|c: u16, r: u16| !#[trigger] visits(header(s), c, r) by {
            lemma_empty(c, r);
        }
    }
    lemma_joins(go, header(s));
    let top = go + header(s);
    if FIRST_ROW < bottom {
        lemma_categories(s, n);
    } else {
        lemma_body_small(s, n);
        assert forall|c: u16, r: u16| !#[trigger] visits(list, c, r) by {
            lemma_empty(c, r);
        }
        assert forall|c: u16, r: u16| !#[trigger] erases(list, c, r) by {
            lemma_empty(c, r);
        }
    }
    assert(goes(list));
    assert(FIRST_ROW <= body(s).row) by {
        if FIRST_ROW < bottom {
            lemma_category_rows(s, 0, n as int);
        }
    }
    lemma_joins(top, list);
    lemma_blank_rows(body(s).row, bottom);
    lemma_joins(top + list, rest);
    lemma_footer(s.size);
    lemma_joins(top + list + rest, foot);
    let ops = frame(s);
    assert(ops == top + list + rest + foot);
    assert(visits(foot, 0, bottom as u16));
    assert forall|c: u16, r: u16| FIRST_ROW <= r && c != 0 && c != 47 implies (#[trigger] text_at(
        ops,
        c,
        r,
    )).len() == 0 by {
        assert(!visits(foot, c, r) && !visits(rest, c, r) && !visits(list, c, r) && !visits(
            top,
            c,
            r,
        ));
        lemma_unvisited(ops, c, r);
    }
    assert forall|c: u16, r: u16| r < FIRST_ROW && 0 < r && r != bottom implies (
    #[trigger] text_at(ops, c, r)).len() == 0 by {
        assert(!visits(foot, c, r) && !visits(rest, c, r) && !visits(list, c, r) && !visits(
            top,
            c,
            r,
        ));
        lemma_unvisited(ops, c, r);
    }
    assert forall|r: u16| body(s).row <= r && r != bottom implies (#[trigger] text_at(
        ops,
        0,
        r,
    )).len() == 0 by {
        assert(!visits(foot, 0, r));
        assert(!erases(foot, 0, r));
        if r < bottom {
            assert(visits(rest, 0, r));
            assert(text_at(rest, 0, r).len() == 0);
            assert(text_at(ops, 0, r) == text_at(top + list + rest, 0, r));
        } else {
            assert(!visits(rest, 0, r) && !visits(list, 0, r) && !visits(top, 0, r));
            lemma_unvisited(ops, 0, r);
        }
    }
    if s.size.0 > 0 {
        assert(ops.take(5) =~= go + header(s).take(4));
        lemma_joins(go, header(s).take(4));
        assert(visits(header(s).take(4), 0, 0)) by {
            lemma_step(header(s), 0);
            lemma_step(header(s), 1);
            lemma_step(header(s), 2);
            lemma_step(header(s), 3);
        }
    }
    if bottom > 0 && s.size.0 > 0 {
        assert forall|c: u16| #[trigger] text_at(ops, c, 0) == text_at(top, c, 0) by {
            assert(text_at(top + list + rest, c, 0) == text_at(top + list, c, 0));
            assert(text_at(top + list, c, 0) == text_at(top, c, 0)) by {
                assert(!visits(list, c, 0));
            }
        }
        assert forall|c: u16|
            c > 0 && !(title_fits(s) && c == (s.size.0 - text_room(now_playing(s))) as u16) implies (
        #[trigger] text_at(ops, c, 0)).len() == 0 by {
            assert(!visits(header(s), c, 0));
            assert(!visits(go, c, 0));
            lemma_unvisited(go, c, 0);
            assert(text_at(top, c, 0) == text_at(go, c, 0));
        }
    }
    if FIRST_ROW < bottom {
        let page = body(s);
        assert forall|c: u16, r: u16| FIRST_ROW <= r < page.row && r < bottom implies
            #[trigger] text_at(ops, c, r) == text_at(list, c, r) by {
            assert(!visits(rest, c, r) && !visits(foot, c, r) && !erases(rest, c, r));
            assert(text_at(top + list + rest, c, r) == text_at(top + list, c, r));
            if !visits(list, c, r) {
                assert(!visits(top, c, r));
                lemma_unvisited(list, c, r);
                lemma_unvisited(top, c, r);
                assert(text_at(top, c, r) =~= text_at(list, c, r));
            }
        }
        assert forall|r: u16| FIRST_ROW <= r implies (#[trigger] text_at(ops, 47, r)) == text_at(
            list,
            47,
            r,
        ) by {
            assert(!visits(rest, 47, r) && !visits(foot, 47, r));
            if r >= page.row {
                assert(text_at(list, 47, r).len() == 0);
                assert(text_at(list, 47, r) =~= Seq::<Cell>::empty());
            } else {
                assert(!erases(rest, 47, r));
            }
            if !visits(list, 47, r) {
                assert(!visits(top, 47, r));
                lemma_unvisited(list, 47, r);
                lemma_unvisited(top, 47, r);
                assert(text_at(top, 47, r) =~= text_at(list, 47, r));
            }
        }
        assert forall|q: int| 0 <= q < n implies #[trigger] category_drawn(s, ops, q) by {
            assert(category_drawn(s, list, q));
            lemma_category_rows(s, q, n as int);
        }
        assert forall|k: int| 0 <= k < shown(s).len() implies #[trigger] station_drawn(
            s,
            ops,
            k,
        ) by {
            assert(station_drawn(s, list, k));
            lemma_row_grows(s, k, shown(s).len() as int);
            lemma_category_rows(s, s.category, n as int);
        }
        assert forall|r: u16| r >= FIRST_ROW && (#[trigger] text_at(ops, 47, r)).len() > 0
            implies exists|k: int|
            0 <= k < shown(s).len() && plays(s, k) && (r == #[trigger] row_of(s, k) || r == row_of(
                s,
                k,
            ) + 1) by {
            assert(text_at(list, 47, r).len() > 0);
        }
    }
}

proof fn lemma_raw(ops: Seq<DrawOp>, column: u16, row: u16)
    ensures
        written(ops, column, row) == text_at(ops.map_values(|op: DrawOp| op@), column, row),
        pen(ops) == pen_of(ops.map_values(|op: DrawOp| op@)),
        look(ops) == look_of(ops.map_values(|op: DrawOp| op@)),
    decreases ops.len(),
{
    let seen = ops.map_values(|op: DrawOp| op@);
    if ops.len() > 0 {
        let front = ops.drop_last();
        lemma_raw(front, column, row);
        assert(seen.drop_last() =~= front.map_values(|op: DrawOp| op@));
        assert(seen.last() == ops.last()@);
        if !(ops.last() is Print) {
            assert(inked(print_of(seen.last()), look_of(seen.drop_last())) =~= Seq::<Cell>::empty());
            assert(written(front, column, row) + Seq::<Cell>::empty() =~= written(
                front,
                column,
                row,
            ));
        }
    }
}

/// The table's number of the `k`-th station of the category under the cursor.
pub open spec fn listed_station<A>(app: App<A>, k: int) -> int {
    choose|i: int| is_nth(app.stations@, open_category(app), k, i)
}

/// The `k`-th station of the category under the cursor is the one that plays.
pub open spec fn plays_there<A>(app: App<A>, k: int) -> bool {
    app.current_idx matches Some(i) && i == listed_station(app, k)
}

/// The row of the `k`-th station of the category under the cursor: below the
/// categories up to its own and the stations before it. The station under the
/// cursor and the one that plays take two rows, the others one.
pub open spec fn station_row<A>(app: App<A>, k: int) -> int
    decreases k,
{
    if k <= 0 {
        3 + app.category_cursor
    } else if k - 1 == app.station_cursor || plays_there(app, k - 1) {
        station_row(app, k - 1) + 2
    } else {
        station_row(app, k - 1) + 1
    }
}

/// The row of the `q`-th category: the stations of the one under the cursor
/// stand between that and the next.
pub open spec fn category_row<A>(app: App<A>, q: int) -> int {
    if q <= app.category_cursor {
        2 + q
    } else {
        station_row(app, open_len(app) as int) + (q - app.category_cursor - 1)
    }
}

/// The last row of the terminal, which is the footer's.
pub open spec fn footer_row<A>(app: App<A>) -> int {
    if app.term_size.1 == 0 {
        0
    } else {
        app.term_size.1 - 1
    }
}

/// A text with spaces behind it up to a width.
pub open spec fn filled(text: Seq<char>, width: int) -> Seq<char> {
    Seq::new(
        if text.len() >= width {
            text.len()
        } else {
            width as nat
        },
        |i: int|
            if i < text.len() {
                text[i]
            } else {
                ' '
            },
    )
}

/// As many of the last glyphs as the terminal has room for: behind column 48,
/// 200 at most, and none on a terminal of fewer than 55 columns.
pub open spec fn visible_wave<A>(app: App<A>, wave: Seq<char>) -> Seq<char> {
    let columns = app.term_size.0 as int;
    let room = if columns < 55 {
        0
    } else if columns > 248 {
        200
    } else {
        columns - 48
    };
    if wave.len() <= room {
        wave
    } else {
        wave.subrange(wave.len() - room, wave.len() as int)
    }
}

proof fn lemma_filled(text: Seq<char>, width: int)
    ensures
        padded(text, width) == filled(text, width),
{
    assert(padded(text, width) =~= filled(text, width));
}

proof fn lemma_listed<A>(app: App<A>)
    requires
        app.wf(),
    ensures
        0 <= app.category_cursor < app.categories@.len() == categories(app.stations@).len(),
        open_category(app) == categories(app.stations@)[app.category_cursor as int],
        open_len(app) == shown(app@).len(),
        forall|k: int|
            #![trigger shown(app@)[k]]
            #![trigger listed_station(app, k)]
            0 <= k < open_len(app) ==> shown(app@)[k] == listed_station(app, k) && 0
                <= listed_station(app, k) < app.stations@.len(),
        forall|k: int| 0 <= k < open_len(app) ==> #[trigger] plays(app@, k) == plays_there(app, k),
{
    let category = open_category(app);
    assert(texts(app.categories@)[app.category_cursor as int] == category);
    assert(texts(app.categories@).len() == app.categories@.len());
    law_members_are_counted(app.stations@, category);
    lemma_shown(app@);
    assert forall|k: int|
        #![trigger shown(app@)[k]]
        #![trigger listed_station(app, k)]
        0 <= k < open_len(app) implies shown(app@)[k] == listed_station(app, k) && 0
        <= listed_station(app, k) < app.stations@.len() by {
        let i = shown(app@)[k] as int;
        assert(is_nth(app.stations@, category, k, i));
        law_nth_is_unique(app.stations@, category, k, i, listed_station(app, k));
    }
    assert forall|k: int| 0 <= k < open_len(app) implies #[trigger] plays(app@, k) == plays_there(
        app,
        k,
    ) by {
        assert(shown(app@)[k] == listed_station(app, k));
    }
}

proof fn lemma_station_row<A>(app: App<A>, k: int)
    requires
        app.wf(),
        0 <= k <= open_len(app),
    ensures
        row_of(app@, k) == station_row(app, k),
    decreases k,
{
    lemma_listed(app);
    if k > 0 {
        lemma_station_row(app, k - 1);
        assert(plays(app@, k - 1) == plays_there(app, k - 1));
    }
}

proof fn lemma_wave_room<A>(app: App<A>, wave: Seq<char>)
    ensures
        cut_wave(wave, wave_width(app.term_size.0)) == visible_wave(app, wave),
{
    assert(cut_wave(wave, wave_width(app.term_size.0)) =~= visible_wave(app, wave));
}

/// The line of a station shows its name and its quality, with a mark before
/// the name if the cursor stands there. Behind them stands a mark exactly if
/// this is the station that plays: one for playing, or one for a pause.
pub proof fn law_station_line<A>(app: &App<A>, canvas: Canvas, k: int)
    requires
        app.wf(),
        call_ensures(render::<A>, (app,), canvas),
        0 <= k < open_len(*app),
        station_row(*app, k) < footer_row(*app),
    ensures
        ({
            let station = app.stations@[listed_station(*app, k)];
            let name = filled(station.name@, 30);
            let quality = filled(station.quality@, 7);
            let entry = if k == app.station_cursor {
                inked(seq![' ', ' ', ' ', ' '], usual()) + inked(seq!['>'], colored(Color::Cyan))
                    + inked(seq![' '], usual()) + inked(name, strong()) + inked(seq![' '], usual())
                    + inked(quality, colored(Color::Yellow))
            } else {
                inked(seq![' ', ' ', ' ', ' ', ' '] + name + seq![' '], usual()) + inked(
                    quality,
                    dimmed(),
                )
            };
            let mark = if !plays_there(*app, k) {
                seq![]
            } else if app.paused {
                inked(seq![' ', '▐', '▐'], colored(Color::Yellow))
            } else {
                inked(seq![' ', '▶'], colored(Color::Green))
            };
            written(canvas.ops@, 0, station_row(*app, k) as u16) == entry + mark
        }),
{
    let s = app@;
    lemma_listed(*app);
    lemma_station_row(*app, k);
    lemma_frame(s);
    lemma_raw(canvas.ops@, 0, station_row(*app, k) as u16);
    if k > 0 {
        lemma_row_grows(s, 0, k);
    }
    assert(station_drawn(s, frame(s), k));
    assert(plays(s, k) == plays_there(*app, k));
    assert(shown(s)[k] == listed_station(*app, k));
    let station = app.stations@[listed_station(*app, k)];
    lemma_filled(station.name@, 30);
    lemma_filled(station.quality@, 7);
    reveal_strlit("    ");
    reveal_strlit("     ");
    reveal_strlit(">");
    reveal_strlit(" ");
    reveal_strlit(" ▐▐");
    reveal_strlit(" ▶");
    assert("    "@ =~= seq![' ', ' ', ' ', ' ']);
    assert(">"@ =~= seq!['>']);
    assert("     "@ =~= seq![' ', ' ', ' ', ' ', ' ']);
    assert(" "@ =~= seq![' ']);
    assert(" ▐▐"@ =~= seq![' ', '▐', '▐']);
    assert(" ▶"@ =~= seq![' ', '▶']);
}

/// Beside the station that plays stands the newest part of the waveform: its
/// upper row on the station's first line, its lower row on the second.
pub proof fn law_waveform_beside_its_station<A>(app: &App<A>, canvas: Canvas, k: int)
    requires
        app.wf(),
        call_ensures(render::<A>, (app,), canvas),
        0 <= k < open_len(*app),
        plays_there(*app, k),
    ensures
        station_row(*app, k) < footer_row(*app) ==> written(
            canvas.ops@,
            47,
            station_row(*app, k) as u16,
        ) == inked(visible_wave(*app, app.wave_top@), colored(Color::Green)),
        station_row(*app, k) + 1 < footer_row(*app) ==> written(
            canvas.ops@,
            47,
            (station_row(*app, k) + 1) as u16,
        ) == inked(visible_wave(*app, app.wave_bot@), colored(Color::Green)),
{
    let s = app@;
    lemma_listed(*app);
    lemma_station_row(*app, k);
    lemma_frame(s);
    lemma_raw(canvas.ops@, 47, station_row(*app, k) as u16);
    lemma_raw(canvas.ops@, 47, (station_row(*app, k) + 1) as u16);
    lemma_wave_room(*app, app.wave_top@);
    lemma_wave_room(*app, app.wave_bot@);
    if k > 0 {
        lemma_row_grows(s, 0, k);
    }
    assert(station_drawn(s, frame(s), k));
    assert(plays(s, k) == plays_there(*app, k));
}

/// A waveform stands nowhere else: wherever one is written below the header,
/// it is on one of the two rows of the station that plays.
pub proof fn law_waveform_nowhere_else<A>(app: &App<A>, canvas: Canvas, row: u16)
    requires
        app.wf(),
        call_ensures(render::<A>, (app,), canvas),
        2 <= row < footer_row(*app),
        written(canvas.ops@, 47, row).len() > 0,
    ensures
        exists|k: int|
            0 <= k < open_len(*app) && plays_there(*app, k) && (row == #[trigger] station_row(
                *app,
                k,
            ) || row == station_row(*app, k) + 1),
{
    let s = app@;
    lemma_listed(*app);
    lemma_frame(s);
    lemma_raw(canvas.ops@, 47, row);
    assert(text_at(frame(s), 47, row).len() > 0);
    let k = choose|k: int|
        0 <= k < shown(s).len() && plays(s, k) && (row == #[trigger] row_of(s, k) || row == row_of(
            s,
            k,
        ) + 1);
    lemma_station_row(*app, k);
    assert(plays(s, k) == plays_there(*app, k));
    assert(row == station_row(*app, k) || row == station_row(*app, k) + 1);
}

/// The second row of the station under the cursor shows its description; that
/// of a station that only plays is left free for the waveform.
pub proof fn law_description<A>(app: &App<A>, canvas: Canvas, k: int)
    requires
        app.wf(),
        call_ensures(render::<A>, (app,), canvas),
        0 <= k < open_len(*app),
        k == app.station_cursor || plays_there(*app, k),
        station_row(*app, k) + 1 < footer_row(*app),
    ensures
        written(canvas.ops@, 0, (station_row(*app, k) + 1) as u16) == (if k == app.station_cursor {
            inked(seq![' ', ' ', ' ', ' ', ' ', ' '], usual()) + inked(
                app.stations@[listed_station(*app, k)].desc@,
                dimmed(),
            )
        } else {
            seq![]
        }),
{
    let s = app@;
    lemma_listed(*app);
    lemma_station_row(*app, k);
    lemma_frame(s);
    lemma_raw(canvas.ops@, 0, (station_row(*app, k) + 1) as u16);
    if k > 0 {
        lemma_row_grows(s, 0, k);
    }
    assert(station_drawn(s, frame(s), k));
    assert(plays(s, k) == plays_there(*app, k));
    assert(shown(s)[k] == listed_station(*app, k));
    reveal_strlit("      ");
    assert("      "@ =~= seq![' ', ' ', ' ', ' ', ' ', ' ']);
}

/// The line of a category shows its name and the number of its stations. The
/// category under the cursor is marked as open, and the cursor is shown if it
/// stands on the category itself.
pub proof fn law_category_line<A>(app: &App<A>, canvas: Canvas, q: int, size: Seq<char>)
    requires
        app.wf(),
        call_ensures(render::<A>, (app,), canvas),
        0 <= q < app.categories@.len(),
        category_row(*app, q) < footer_row(*app),
        is_notation(
            size,
            named_before(
                app.stations@,
                app.categories@[q]@,
                app.stations@.len() as int,
            ) as int,
        ),
    ensures
        ({
            let here = q == app.category_cursor && app.station_cursor == -1;
            let label = seq![if q == app.category_cursor {
                '▾'
            } else {
                '▸'
            }] + seq![' '] + filled(app.categories@[q]@, 28);
            let front = if here {
                inked(seq![' ', ' '], usual()) + inked(seq!['>'], colored(Color::Cyan)) + inked(
                    seq![' '],
                    usual(),
                )
            } else {
                inked(seq![' ', ' ', ' '], usual())
            };
            written(canvas.ops@, 0, category_row(*app, q) as u16) == front + inked(
                label,
                if here {
                    strong()
                } else {
                    usual()
                },
            ) + inked(seq![' ', ' '], usual()) + inked(size, dimmed())
        }),
{
    let s = app@;
    let name = app.categories@[q]@;
    lemma_listed(*app);
    lemma_station_row(*app, open_len(*app) as int);
    lemma_frame(s);
    lemma_raw(canvas.ops@, 0, category_row(*app, q) as u16);
    lemma_category_rows(s, q, app.categories@.len() as int);
    assert(category_row_of(s, q) == category_row(*app, q));
    assert(category_drawn(s, frame(s), q));
    assert(texts(app.categories@)[q] == name);
    law_members_are_counted(app.stations@, name);
    law_decimal(members(app.stations@, name).len());
    law_one_notation(
        decimal(members(app.stations@, name).len()),
        size,
        members(app.stations@, name).len() as int,
    );
    lemma_filled(name, 28);
    reveal_strlit("  ");
    reveal_strlit("   ");
    reveal_strlit(">");
    reveal_strlit(" ");
    reveal_strlit("▾");
    reveal_strlit("▸");
    assert("   "@ =~= seq![' ', ' ', ' ']);
    assert("  "@ =~= seq![' ', ' ']);
    assert(" "@ =~= seq![' ']);
    assert(">"@ =~= seq!['>']);
    assert("▾"@ =~= seq!['▾']);
    assert("▸"@ =~= seq!['▸']);
}

/// The last row shows the keys, filled up with spaces.
pub proof fn law_footer<A>(app: &App<A>, canvas: Canvas)
    requires
        app.wf(),
        call_ensures(render::<A>, (app,), canvas),
    ensures
        written(canvas.ops@, 0, footer_row(*app) as u16) == inked(
            filled(
                " j/k:nav  enter:select  b:back  s:stop  p:pause  +/-:vol  q:quit"@,
                app.term_size.0 as int,
            ),
            footer_look(),
        ),
{
    lemma_listed(*app);
    lemma_frame(app@);
    lemma_raw(canvas.ops@, 0, footer_row(*app) as u16);
    lemma_filled(HINTS@, app.term_size.0 as int);
}

/// What the header says of the station that plays: its name, the title of the
/// track if there is one, and whether it is paused.
pub open spec fn playing_text<A>(app: App<A>) -> Seq<char> {
    let title = match app.metadata {
        Some(t) => seq![' ', '—', ' '] + t@,
        None => seq![],
    };
    let pause = if app.paused {
        " [paused]"@
    } else {
        seq![]
    };
    seq![' ', ' '] + app.stations@[app.current_idx.unwrap() as int].name@ + title + pause + seq![' ']
}

/// The first row shows the name of the program and the volume, as far as it is
/// known. What plays stands at its right end if that leaves a column free, and
/// is left out otherwise; nothing else is written there.
pub proof fn law_header<A>(
    app: &App<A>,
    canvas: Canvas,
    digits: Seq<char>,
    left: &str,
    right: &str,
    left_room: usize,
    right_room: usize,
)
    requires
        app.wf(),
        app.term_size.0 > 0,
        app.term_size.1 > 1,
        call_ensures(render::<A>, (app,), canvas),
        app.volume is Some ==> is_notation(digits, app.volume.unwrap() as int),
        left@ == " RADIO"@ + (if app.volume is Some {
            "  Vol: "@ + digits
        } else {
            seq![]
        }),
        right@ == (if app.current_idx is Some {
            playing_text(*app)
        } else {
            seq![]
        }),
        call_ensures(room, (left,), left_room),
        call_ensures(room, (right,), right_room),
    ensures
        written(canvas.ops@, 0, 0) == inked(left@, header_look()),
        app.current_idx is Some && left_room + right_room < app.term_size.0 ==> written(
            canvas.ops@,
            (app.term_size.0 - right_room) as u16,
            0,
        ) == inked(right@, Look { color: Some(Color::Green), ..header_look() }),
        forall|c: u16|
            c > 0 && !(app.current_idx is Some && left_room + right_room < app.term_size.0 && c
                == app.term_size.0 - right_room) ==> (#[trigger] written(canvas.ops@, c, 0)).len()
                == 0,
{
    let s = app@;
    lemma_listed(*app);
    lemma_frame(s);
    lemma_raw(canvas.ops@, 0, 0);
    lemma_raw(canvas.ops@, (app.term_size.0 - right_room) as u16, 0);
    assert forall|c: u16| #[trigger] written(canvas.ops@, c, 0) == text_at(frame(s), c, 0) by {
        lemma_raw(canvas.ops@, c, 0);
    }
    if let Some(v) = app.volume {
        law_decimal(v as nat);
        law_one_notation(decimal(v as nat), digits, v as int);
    }
    reveal_strlit("");
    reveal_strlit(" ");
    reveal_strlit("  ");
    reveal_strlit(" — ");
    assert(" — "@ =~= seq![' ', '—', ' ']);
    assert("  "@ =~= seq![' ', ' ']);
    assert(" "@ =~= seq![' ']);
    assert(""@ =~= Seq::<char>::empty());
    assert(header_left(s.volume) =~= left@);
    assert(now_playing(s) =~= right@);
    if app.current_idx is Some {
        assert(right@.len() > 0);
    }
}

/// The waveform has room behind column 48, for 200 glyphs at most, and none on
/// a terminal of fewer than 55 columns.
pub proof fn law_vu_width<A>(app: &App<A>, width: u16)
    requires
        call_ensures(App::<A>::vu_width, (app,), width),
    ensures
        app.term_size.0 < 55 ==> width == 0,
        55 <= app.term_size.0 <= 248 ==> width == app.term_size.0 - 48,
        app.term_size.0 > 248 ==> width == 200,
{
}

proof fn lemma_clear_all(ops: Seq<Draw>, i: int)
    requires
        0 <= i < ops.len(),
        ops[i] is ClearAll,
    ensures
        erases(ops, 0, 0),
    decreases ops.len(),
{
    if i < ops.len() - 1 {
        assert(ops.drop_last()[i] == ops[i]);
        lemma_clear_all(ops.drop_last(), i);
    }
}

/// A screen is drawn over the one before, without clearing all of it.
pub proof fn law_drawn_over<A>(app: &App<A>, canvas: Canvas)
    requires
        app.wf(),
        call_ensures(render::<A>, (app,), canvas),
    ensures
        forall|i: int| 0 <= i < canvas.ops@.len() ==> !((#[trigger] canvas.ops@[i]) is ClearAll),
{
    let ops = canvas.ops@;
    lemma_listed(*app);
    lemma_frame(app@);
    assert(canvas@.len() == ops.len());
    assert forall|i: int| 0 <= i < ops.len() implies !((#[trigger] ops[i]) is ClearAll) by {
        assert(canvas@[i] == ops[i]@);
        if ops[i] is ClearAll {
            lemma_clear_all(canvas@, i);
        }
    }
}

/// Each row between header and footer is gone to, and cleared behind what is
/// written there.
pub proof fn law_rows_are_cleared<A>(app: &App<A>, canvas: Canvas, row: u16)
    requires
        app.wf(),
        call_ensures(render::<A>, (app,), canvas),
        2 <= row < footer_row(*app),
    ensures
        exists|i: int, j: int|
            0 <= i < j < canvas.ops@.len() && canvas.ops@[i] == DrawOp::MoveTo(0, row)
                && #[trigger] clears_at(canvas.ops@, i, j),
{
    let ops = canvas.ops@;
    assert(canvas@.len() == ops.len());
    law_no_leftovers(app@, row as int);
    let all = frame(app@);
    let (i, j) = choose|i: int, j: int|
        0 <= i < j < all.len() && #[trigger] all[i] == Draw::MoveTo(0, row as u16)
            && #[trigger] all[j] is ClearLine && stays(all, i, j);
    assert(canvas@[i] == ops[i]@ && canvas@[j] == ops[j]@);
    assert forall|k: int| i < k < j implies !((#[trigger] ops[k]) is MoveTo) by {
        assert(canvas@[k] == ops[k]@);
        assert(!(all[k] is MoveTo));
    }
    assert(clears_at(ops, i, j));
}

/// Command `j` clears the rest of the line that command `i` went to.
pub open spec fn clears_at(ops: Seq<DrawOp>, i: int, j: int) -> bool {
    ops[j] is ClearLine && forall|k: int| i < k < j ==> !((#[trigger] ops[k]) is MoveTo)
}

/// The header's row is first painted over its whole width, so that nothing of
/// an earlier one is left.
pub proof fn law_header_is_painted<A>(app: &App<A>, canvas: Canvas)
    requires
        app.wf(),
        app.term_size.0 > 0,
        call_ensures(render::<A>, (app,), canvas),
    ensures
        exists|n: int|
            0 <= n <= canvas.ops@.len() && written(#[trigger] canvas.ops@.take(n), 0, 0) == inked(
                filled(seq![], app.term_size.0 as int),
                header_look(),
            ),
{
    let ops = canvas.ops@;
    lemma_listed(*app);
    lemma_frame(app@);
    assert(canvas@.len() == ops.len());
    assert(ops.len() >= 5);
    lemma_raw(ops.take(5), 0, 0);
    assert(ops.take(5).map_values(|op: DrawOp| op@) =~= canvas@.take(5));
    assert(filled(seq![], app.term_size.0 as int) =~= spaces(app.term_size.0 as int));
    assert(written(ops.take(5), 0, 0) == inked(
        filled(seq![], app.term_size.0 as int),
        header_look(),
    ));
}

/// Nothing else is on the screen: below the header things are written only at
/// the left edge and in the waveform's place, and the rows between the list
/// and the footer are empty, as is the one below the header.
pub proof fn law_nothing_else<A>(app: &App<A>, canvas: Canvas, column: u16, row: u16)
    requires
        app.wf(),
        call_ensures(render::<A>, (app,), canvas),
        0 < row,
        row != footer_row(*app),
        (column != 0 && column != 47) || row == 1 || row >= category_row(
            *app,
            app.categories@.len() as int,
        ),
    ensures
        written(canvas.ops@, column, row).len() == 0,
{
    let s = app@;
    let n = app.categories@.len();
    lemma_listed(*app);
    lemma_station_row(*app, open_len(*app) as int);
    lemma_frame(s);
    lemma_raw(canvas.ops@, column, row);
    assert(category_row_of(s, n as int) == category_row(*app, n as int));
    lemma_category_rows(s, 0, n as int);
    if bottom_row(s.size) > FIRST_ROW {
        lemma_categories(s, n);
        if row >= category_row(*app, n as int) {
            assert(body(s).row <= row);
            if column == 47 && written(canvas.ops@, column, row).len() > 0 {
                assert(text_at(frame(s), 47, row).len() > 0);
                let k = choose|k: int|
                    0 <= k < shown(s).len() && plays(s, k) && (row == #[trigger] row_of(s, k) || row
                        == row_of(s, k) + 1);
                lemma_row_grows(s, k, shown(s).len() as int);
                lemma_category_rows(s, s.category, n as int);
            }
        }
    } else {
        lemma_body_small(s, n);
        if column == 47 {
            lemma_small_frame(s, row);
        }
    }
}

proof fn lemma_small_frame<A>(s: AppState<A>, row: u16)
    requires
        bottom_row(s.size) <= FIRST_ROW,
        0 < row,
    ensures
        text_at(frame(s), 47, row).len() == 0,
{
    let bottom = bottom_row(s.size);
    let go = seq![Draw::MoveTo(0, 0)];
    let list = body(s).ops;
    let rest = blanks(body(s).row, bottom);
    lemma_body_small(s, categories(s.stations).len());
    lemma_line(0, 0, seq![]);
    assert(go =~= go + Seq::<Draw>::empty());
    if s.size.0 > 0 {
        lemma_header(s);
    } else {
        lemma_empty(47, row);
    }
    lemma_empty(47, row);
    lemma_joins(go, header(s));
    lemma_joins(go + header(s), list);
    lemma_blank_rows(body(s).row, bottom);
    lemma_joins(go + header(s) + list, rest);
    lemma_footer(s.size);
    lemma_joins(go + header(s) + list + rest, footer(s.size));
    lemma_unvisited(frame(s), 47, row);
}

/// At the end of a turn the same screen is drawn, after clearing it if that
/// was asked for.
pub proof fn law_refresh<A>(app: &App<A>, clear: bool, drawn: Canvas, canvas: Canvas)
    requires
        app.wf(),
        call_ensures(render::<A>, (app,), drawn),
        call_ensures(refresh::<A>, (app, clear), canvas),
    ensures
        !clear ==> canvas@ == drawn@,
        clear ==> canvas.ops@.len() > 0 && canvas.ops@[0] is ClearAll && canvas@.skip(1) == drawn@,
{
    if clear {
        assert(canvas@.len() == canvas.ops@.len());
        assert(canvas@[0] == canvas.ops@[0]@);
        assert(canvas@.skip(1) =~= drawn@);
    }
}

} // verus!
