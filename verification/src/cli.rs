//! The command line: what is asked for, what is printed, and what other
//! programs are given to do.

use vstd::prelude::*;
use vstd::utf8::{decode_utf8, valid_utf8};
use crate::station::Station;
use crate::text::{
    chars_of, decimal, padded, parse_unsigned, push_decimal, push_padded, same_text, trim,
    trim_range, unsigned,
};
use crate::unicode::{from_utf8_lossy, utf8_lossy};

verus! {

/// What the command line asks for.
#[derive(PartialEq, Eq, Debug)]
pub enum Command {
    /// The player.
    Tui,
    /// The help text.
    Help,
    /// The list of stations.
    List,
    /// A station, by its name or a part of it.
    Play(String),
}

/// Texts in a row, with a space between each two.
pub open spec fn joined(words: Seq<String>) -> Seq<char>
    decreases words.len(),
{
    if words.len() == 0 {
        seq![]
    } else if words.len() == 1 {
        words[0]@
    } else {
        joined(words.drop_last()) + " "@ + words.last()@
    }
}

/// Joins texts with spaces.
pub fn join_words(words: &Vec<String>) -> (text: String)
    ensures
        text@ == joined(words@),
{
    let mut text: String = String::new();
    let mut i: usize = 0;
    while i < words.len()
        invariant
            i <= words@.len(),
            text@ == joined(words@.take(i as int)),
        decreases words@.len() - i,
    {
        let ghost before = text@;
        assert(words@.take(i + 1).drop_last() =~= words@.take(i as int));
        if i > 0 {
            text.append(" ");
        }
        text.append(words[i].as_str());
        i = i + 1;
        assert(text@ =~= joined(words@.take(i as int)));
    }
    assert(words@.take(i as int) =~= words@);
    text
}

/// The command for some arguments: without any it is the player, the first
/// one may ask for help or for the list, and otherwise all are the name of a
/// station.
pub fn parse_args(args: &Vec<String>) -> (command: Command)
    ensures
        command is Tui <==> args@.len() == 0,
        command is Help <==> args@.len() > 0 && (args@[0]@ == "--help"@ || args@[0]@ == "-h"@),
        command is List <==> args@.len() > 0 && (args@[0]@ == "--list"@ || args@[0]@ == "-l"@),
        command matches Command::Play(query) ==> query@ == joined(args@),
{
    if args.len() == 0 {
        return Command::Tui;
    }
    let first: &str = args[0].as_str();
    proof {
        reveal_strlit("--help");
        reveal_strlit("-h");
        reveal_strlit("--list");
        reveal_strlit("-l");
        assert("--help"@[2] == 'h' && "--list"@[2] == 'l');
        assert("-h"@[1] == 'h' && "-l"@[1] == 'l');
    }
    if same_text(first, "--help") || same_text(first, "-h") {
        Command::Help
    } else if same_text(first, "--list") || same_text(first, "-l") {
        Command::List
    } else {
        Command::Play(join_words(args))
    }
}

/// The help text, line by line.
pub fn help_lines() -> (lines: Vec<&'static str>)
    ensures
        lines@ == seq![
            "Usage: radio [station-name | --list | --help]",
            "",
            "Interactive terminal radio player.",
            "",
            "Options:",
            "  (no args)       Launch interactive TUI",
            "  <station-name>  Play station directly (fuzzy match)",
            "  --list, -l      List all available stations",
            "  --help, -h      Show this help message",
        ],
{
    vec![
        "Usage: radio [station-name | --list | --help]",
        "",
        "Interactive terminal radio player.",
        "",
        "Options:",
        "  (no args)       Launch interactive TUI",
        "  <station-name>  Play station directly (fuzzy match)",
        "  --list, -l      List all available stations",
        "  --help, -h      Show this help message",
    ]
}

/// The codes that a terminal takes for bold, for dim, and for neither.
pub struct Style {
    pub bold: &'static str,
    pub dim: &'static str,
    pub reset: &'static str,
}

/// The codes for a terminal, or none where the output goes elsewhere.
pub open spec fn style(is_tty: bool) -> Style {
    if is_tty {
        Style { bold: "\x1b[1m", dim: "\x1b[2m", reset: "\x1b[0m" }
    } else {
        Style { bold: "", dim: "", reset: "" }
    }
}

fn choose_style(is_tty: bool) -> (s: Style)
    ensures
        s == style(is_tty),
{
    if is_tty {
        Style { bold: "\x1b[1m", dim: "\x1b[2m", reset: "\x1b[0m" }
    } else {
        Style { bold: "", dim: "", reset: "" }
    }
}

/// The heading of a category.
pub open spec fn heading(category: Seq<char>, s: Style) -> Seq<char> {
    s.bold@ + category + s.reset@
}

/// The line of a station.
pub open spec fn station_line(station: Station, s: Style) -> Seq<char> {
    "  "@ + padded(station.name@, 36) + " "@ + s.dim@ + padded(station.quality@, 10) + s.reset@
        + "  "@ + station.desc@
}

/// The category before the `n`-th station, and none before the first.
pub open spec fn category_before(stations: Seq<Station>, n: int) -> Seq<char> {
    if n == 0 {
        ""@
    } else {
        stations[n - 1].category@
    }
}

/// The lines for the first `n` stations: a heading wherever the category
/// changes, with an empty line above it, and a line for each station.
pub open spec fn listing(stations: Seq<Station>, n: int, s: Style) -> Seq<Seq<char>>
    decreases n,
{
    if n <= 0 {
        seq![]
    } else {
        let station = stations[n - 1];
        listing(stations, n - 1, s) + (if station.category@ != category_before(stations, n - 1) {
            seq![""@, heading(station.category@, s)]
        } else {
            seq![]
        }) + seq![station_line(station, s)]
    }
}

/// The characters of each of some strings.
pub open spec fn lines_of(list: Seq<String>) -> Seq<Seq<char>> {
    list.map_values(|s: String| s@)
}

/// Adds a line.
fn push_line(lines: &mut Vec<String>, line: String)
    ensures
        lines_of(final(lines)@) == lines_of(old(lines)@).push(line@),
{
    let ghost before = lines@;
    lines.push(line);
    assert(lines_of(lines@) =~= lines_of(before).push(line@));
}

/// The list of stations, line by line.
pub fn station_list(stations: &Vec<Station>, is_tty: bool) -> (lines: Vec<String>)
    ensures
        lines_of(lines@) == listing(stations@, stations@.len() as int, style(is_tty)).push(""@),
{
    let s: Style = choose_style(is_tty);
    let mut lines: Vec<String> = Vec::new();
    let mut current: &'static str = "";
    let mut i: usize = 0;
    assert(lines_of(lines@) =~= Seq::<Seq<char>>::empty());
    while i < stations.len()
        invariant
            i <= stations@.len(),
            s == style(is_tty),
            current@ == category_before(stations@, i as int),
            lines_of(lines@) == listing(stations@, i as int, s),
        decreases stations@.len() - i,
    {
        let ghost before = lines_of(lines@);
        let station: Station = stations[i];
        if !same_text(station.category, current) {
            current = station.category;
            let mut title: String = String::from_str(s.bold);
            title.append(current);
            title.append(s.reset);
            push_line(&mut lines, String::from_str(""));
            push_line(&mut lines, title);
        }
        let mut line: String = String::from_str("  ");
        push_padded(&mut line, station.name, 36);
        line.append(" ");
        line.append(s.dim);
        push_padded(&mut line, station.quality, 10);
        line.append(s.reset);
        line.append("  ");
        line.append(station.desc);
        push_line(&mut lines, line);
        i = i + 1;
        assert(lines_of(lines@) =~= listing(stations@, i as int, s));
    }
    push_line(&mut lines, String::from_str(""));
    lines
}

/// Stations of one category in a row stand together under one heading.
pub proof fn law_listing_is_grouped(
    before: Seq<Station>,
    group: Seq<Station>,
    category: Seq<char>,
    s: Style,
)
    requires
        group.len() > 0,
        forall|i: int| 0 <= i < group.len() ==> (#[trigger] group[i]).category@ == category,
        category_before(before, before.len() as int) != category,
    ensures
        listing(before + group, (before.len() + group.len()) as int, s) == listing(
            before,
            before.len() as int,
            s,
        ) + seq![""@, heading(category, s)] + group.map_values(
            |station: Station| station_line(station, s),
        ),
    decreases group.len(),
{
    let all = before + group;
    let n = all.len() as int;
    let lines = group.map_values(|station: Station| station_line(station, s));
    let front = group.drop_last();
    assert(all[n - 1] == group.last());
    if group.len() == 1 {
        lemma_listing_prefix(before, group, before.len() as int, s);
        assert(category_before(all, n - 1) == category_before(before, before.len() as int));
        assert(lines =~= seq![station_line(group[0], s)]);
    } else {
        assert(forall|i: int| 0 <= i < front.len() ==> #[trigger] front[i] == group[i]);
        law_listing_is_grouped(before, front, category, s);
        lemma_listing_prefix(before + front, seq![group.last()], n - 1, s);
        assert((before + front) + seq![group.last()] =~= all);
        assert(all[n - 2] == group[group.len() - 2]);
        assert(lines =~= front.map_values(|station: Station| station_line(station, s)).push(
            station_line(group.last(), s),
        ));
    }
    assert(listing(all, n, s) =~= listing(before, before.len() as int, s) + seq![
        ""@,
        heading(category, s),
    ] + lines);
}

proof fn lemma_listing_prefix(a: Seq<Station>, b: Seq<Station>, n: int, s: Style)
    requires
        0 <= n <= a.len(),
    ensures
        listing(a + b, n, s) == listing(a, n, s),
    decreases n,
{
    if n > 0 {
        lemma_listing_prefix(a, b, n - 1, s);
        assert((a + b)[n - 1] == a[n - 1]);
        if n > 1 {
            assert((a + b)[n - 2] == a[n - 2]);
        }
    }
}

/// What is printed before a station is played directly.
pub fn playing_lines(station: &Station, is_tty: bool) -> (lines: (String, String))
    ensures
        lines.0@ == style(is_tty).bold@ + "Playing:"@ + style(is_tty).reset@ + " "@ + station.name@
            + "  "@ + style(is_tty).dim@ + "["@ + station.quality@ + "]"@ + style(is_tty).reset@,
        lines.1@ == style(is_tty).dim@ + "Press Ctrl+C to stop"@ + style(is_tty).reset@,
{
    let s: Style = choose_style(is_tty);
    let mut first: String = String::from_str(s.bold);
    first.append("Playing:");
    first.append(s.reset);
    first.append(" ");
    first.append(station.name);
    first.append("  ");
    first.append(s.dim);
    first.append("[");
    first.append(station.quality);
    first.append("]");
    first.append(s.reset);
    let mut second: String = String::from_str(s.dim);
    second.append("Press Ctrl+C to stop");
    second.append(s.reset);
    (first, second)
}

/// What is printed where no station matches a query.
pub fn no_match_lines(query: &str) -> (lines: (String, String))
    ensures
        lines.0@ == "radio: no station matching \""@ + query@ + "\""@,
        lines.1@ == "Try: radio --list"@,
{
    let mut first: String = String::from_str("radio: no station matching \"");
    first.append(query);
    first.append("\"");
    (first, String::from_str("Try: radio --list"))
}

/// The arguments with which ffmpeg plays a stream, and hands its samples to
/// the meter: one channel of unsigned bytes, 8000 of them each second.
pub fn stream_args<'a>(url: &'a str) -> (args: Vec<&'a str>)
    ensures
        args@ == seq![
            "-loglevel",
            "quiet",
            "-nostdin",
            "-i",
            url,
            "-f",
            "audiotoolbox",
            "-",
            "-ac",
            "1",
            "-ar",
            "8000",
            "-f",
            "u8",
            "pipe:1",
        ],
{
    vec![
        "-loglevel",
        "quiet",
        "-nostdin",
        "-i",
        url,
        "-f",
        "audiotoolbox",
        "-",
        "-ac",
        "1",
        "-ar",
        "8000",
        "-f",
        "u8",
        "pipe:1",
    ]
}

/// The arguments with which ffmpeg plays a stream and nothing else.
pub fn direct_args<'a>(url: &'a str) -> (args: Vec<&'a str>)
    ensures
        args@ == seq![
            "-loglevel",
            "error",
            "-nostdin",
            "-i",
            url,
            "-f",
            "audiotoolbox",
            "-",
        ],
{
    vec!["-loglevel", "error", "-nostdin", "-i", url, "-f", "audiotoolbox", "-"]
}

/// The script that sets the volume.
pub fn volume_script(volume: u8) -> (script: String)
    ensures
        script@ == "set volume output volume "@ + decimal(volume as nat),
{
    let mut script: String = String::from_str("set volume output volume ");
    push_decimal(&mut script, volume as usize);
    script
}

/// The volume that a text names: a number of at most 255, with white space
/// around it or not.
pub open spec fn named_volume(text: Seq<char>) -> Option<nat> {
    unsigned(trim(text), 255)
}

/// The volume as a number.
pub open spec fn volume_of(volume: Option<u8>) -> Option<nat> {
    match volume {
        Some(v) => Some(v as nat),
        None => None,
    }
}

/// Reads the volume out of a text.
pub fn volume_of_text(text: &str) -> (volume: Option<u8>)
    ensures
        volume_of(volume) == named_volume(text@),
{
    let chars: Vec<char> = chars_of(text);
    let len: usize = chars.len();
    let (from, to): (usize, usize) = trim_range(&chars, 0, len);
    assert(chars@.subrange(0, len as int) =~= text@);
    match parse_unsigned(&chars, from, to, 255) {
        Some(n) => Some(n as u8),
        None => None,
    }
}

/// Reads the volume out of what the script that asks for it printed.
pub fn volume_of_output(output: &[u8]) -> (volume: Option<u8>)
    ensures
        volume_of(volume) == named_volume(utf8_lossy(output@)),
        valid_utf8(output@) ==> volume_of(volume) == named_volume(decode_utf8(output@)),
{
    let text: String = from_utf8_lossy(output);
    volume_of_text(text.as_str())
}

} // verus!
