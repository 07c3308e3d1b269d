//! What the command line promises.

use vstd::prelude::*;
use vstd::utf8::{decode_utf8, valid_utf8};
use crate::cli::{
    category_before, direct_args, help_lines, join_words, lines_of, listing, no_match_lines,
    parse_args, playing_lines, station_line, station_list, stream_args, style, volume_of,
    volume_of_output, volume_of_text, volume_script, Command,
};
use crate::laws::text::{
    is_filled, is_notation, is_trimmed, law_decimal, law_trim, law_trimmed_is_unique, law_unsigned,
    spells, stands_at,
};
use crate::station::Station;
use crate::text::{decimal, padded, trim};
use crate::unicode::utf8_lossy;

verus! {

/// Without arguments the player is asked for, with `--help` or `-h` as the
/// first one the help, with `--list` or `-l` the list, and otherwise a
/// station, by all of the arguments.
pub proof fn law_parse_args(args: &Vec<String>, command: Command, words: String)
    requires
        call_ensures(parse_args, (args,), command),
        call_ensures(join_words, (args,), words),
    ensures
        command is Tui <==> args@.len() == 0,
        command is Help <==> args@.len() > 0 && (args@[0]@ == "--help"@ || args@[0]@ == "-h"@),
        command is List <==> args@.len() > 0 && (args@[0]@ == "--list"@ || args@[0]@ == "-l"@),
        command matches Command::Play(query) ==> query@ == words@,
{
}

/// Every option that is understood is named in the help text.
pub proof fn law_help_names_the_options(
    args: &Vec<String>,
    command: Command,
    lines: Vec<&'static str>,
)
    requires
        call_ensures(parse_args, (args,), command),
        command is Help || command is List,
        call_ensures(help_lines, (), lines),
    ensures
        exists|k: int, i: int|
            0 <= k < lines@.len() && #[trigger] stands_at(lines@[k]@, args@[0]@, i),
{
    reveal_strlit("--help");
    reveal_strlit("-h");
    reveal_strlit("--list");
    reveal_strlit("-l");
    reveal_strlit("  --list, -l      List all available stations");
    reveal_strlit("  --help, -h      Show this help message");
    let option = args@[0]@;
    if option == "--list"@ {
        assert(stands_at(lines@[7]@, option, 2));
    } else if option == "-l"@ {
        assert(stands_at(lines@[7]@, option, 10));
    } else if option == "--help"@ {
        assert(stands_at(lines@[8]@, option, 2));
    } else {
        assert(stands_at(lines@[8]@, option, 10));
    }
}

/// Words are joined in their order, with one space between each two.
pub proof fn law_join(words: &Vec<String>, more: &Vec<String>, text: String, longer: String)
    requires
        call_ensures(join_words, (words,), text),
        call_ensures(join_words, (more,), longer),
        more@.len() == words@.len() + 1,
        more@.drop_last() == words@,
    ensures
        words@.len() == 0 ==> text@.len() == 0 && longer@ == more@[0]@,
        words@.len() > 0 ==> longer@ == text@ + seq![' '] + more@.last()@,
{
    reveal_strlit(" ");
    assert(" "@ =~= seq![' ']);
}

/// The line of a station: its name, its quality and its description, in
/// columns of their own.
pub open spec fn is_station_line(line: Seq<char>, station: Station, dim: Seq<char>, reset: Seq<char>) -> bool {
    exists|name: Seq<char>, quality: Seq<char>|
        #![trigger is_filled(station.name@, 36, name), is_filled(station.quality@, 10, quality)]
        is_filled(station.name@, 36, name) && is_filled(station.quality@, 10, quality) && line
            == "  "@ + name + " "@ + dim + quality + reset + "  "@ + station.desc@
}

proof fn lemma_padded(text: Seq<char>, width: int)
    ensures
        is_filled(text, width, padded(text, width)),
{
}

/// The codes for bold, for dim and for neither: none, unless the output goes
/// to a terminal.
pub open spec fn code(is_tty: bool, on: Seq<char>) -> Seq<char> {
    if is_tty {
        on
    } else {
        seq![]
    }
}

proof fn lemma_style(is_tty: bool)
    ensures
        style(is_tty).bold@ == code(is_tty, "\x1b[1m"@),
        style(is_tty).dim@ == code(is_tty, "\x1b[2m"@),
        style(is_tty).reset@ == code(is_tty, "\x1b[0m"@),
{
    reveal_strlit("");
    assert(""@ =~= Seq::<char>::empty());
}

/// A station more on the list is a line more before the closing empty line;
/// and where it begins another category, an empty line and the name of the
/// category stand above it.
pub proof fn law_station_list(
    table: &Vec<Station>,
    more: &Vec<Station>,
    is_tty: bool,
    lines: Vec<String>,
    longer: Vec<String>,
)
    requires
        more@.len() == table@.len() + 1,
        more@.drop_last() == table@,
        call_ensures(station_list, (table, is_tty), lines),
        call_ensures(station_list, (more, is_tty), longer),
    ensures
        ({
            let station = more@.last();
            let heads = if table@.len() == 0 {
                station.category@.len() > 0
            } else {
                table@.last().category@ != station.category@
            };
            let n = lines@.len() as int - 1;
            let at = if heads {
                n + 2
            } else {
                n
            };
            &&& n >= 0 && lines@[n]@.len() == 0
            &&& longer@.len() == at + 2
            &&& forall|i: int| 0 <= i < n ==> (#[trigger] longer@[i])@ == lines@[i]@
            &&& heads ==> longer@[n]@.len() == 0 && longer@[n + 1]@ == code(is_tty, "\x1b[1m"@)
                + station.category@ + code(is_tty, "\x1b[0m"@)
            &&& is_station_line(
                longer@[at]@,
                station,
                code(is_tty, "\x1b[2m"@),
                code(is_tty, "\x1b[0m"@),
            )
            &&& longer@[at + 1]@.len() == 0
        }),
{
    let s = style(is_tty);
    let station = more@.last();
    let k = table@.len() as int;
    lemma_style(is_tty);
    reveal_strlit("");
    lemma_padded(station.name@, 36);
    lemma_padded(station.quality@, 10);
    lemma_listing_same(more@, table@, k, is_tty);
    if k > 0 {
        assert(more@[k - 1] == table@[k - 1]);
    }
    let short = lines_of(lines@);
    let long = lines_of(longer@);
    let old = listing(table@, k, s);
    let n = lines@.len() as int - 1;
    assert(short == old.push(""@));
    assert(long == listing(more@, k + 1, s).push(""@));
    assert(short.len() == lines@.len() && long.len() == longer@.len());
    assert(old.len() == n);
    assert(short[n] == lines@[n]@);
    assert forall|i: int| 0 <= i < n implies (#[trigger] longer@[i])@ == lines@[i]@ by {
        assert(long[i] == longer@[i]@ && short[i] == lines@[i]@);
        assert(short[i] == old[i] && long[i] == old[i]);
    }
    let heads = if k == 0 {
        station.category@.len() > 0
    } else {
        table@.last().category@ != station.category@
    };
    if k == 0 && !heads {
        assert(station.category@ =~= ""@);
    }
    let at = if heads {
        n + 2
    } else {
        n
    };
    assert(station.category@ != category_before(more@, k) <==> heads);
    assert(long.len() == at + 2);
    if heads {
        assert(long[n] == longer@[n]@ && long[n + 1] == longer@[n + 1]@);
    }
    assert(long[at] == longer@[at]@ && long[at + 1] == longer@[at + 1]@);
    assert(long[at] == station_line(station, s));
}

proof fn lemma_listing_same(a: Seq<Station>, b: Seq<Station>, n: int, is_tty: bool)
    requires
        0 <= n <= a.len(),
        n <= b.len(),
        forall|i: int| 0 <= i < n ==> #[trigger] a[i] == b[i],
    ensures
        listing(a, n, style(is_tty)) == listing(b, n, style(is_tty)),
    decreases n,
{
    if n > 0 {
        lemma_listing_same(a, b, n - 1, is_tty);
        assert(a[n - 1] == b[n - 1]);
        if n > 1 {
            assert(a[n - 2] == b[n - 2]);
        }
    }
}

/// An empty list is an empty line.
pub proof fn law_empty_list(table: &Vec<Station>, is_tty: bool, lines: Vec<String>)
    requires
        table@.len() == 0,
        call_ensures(station_list, (table, is_tty), lines),
    ensures
        lines@.len() == 1 && lines@[0]@.len() == 0,
{
    reveal_strlit("");
    assert(lines_of(lines@).len() == lines@.len());
    assert(lines_of(lines@)[0] == lines@[0]@);
}

/// What is printed before a station is played is its name and quality, and
/// how to stop.
pub proof fn law_playing_lines(station: &Station, is_tty: bool, lines: (String, String))
    requires
        call_ensures(playing_lines, (station, is_tty), lines),
    ensures
        ({
            let reset = code(is_tty, "\x1b[0m"@);
            let dim = code(is_tty, "\x1b[2m"@);
            &&& lines.0@ == code(is_tty, "\x1b[1m"@) + "Playing:"@ + reset + " "@ + station.name@
                + "  "@ + dim + "["@ + station.quality@ + "]"@ + reset
            &&& lines.1@ == dim + "Press Ctrl+C to stop"@ + reset
        }),
{
    lemma_style(is_tty);
}

/// Where nothing matches, the query is repeated in quotes.
pub proof fn law_no_match_lines(query: &str, lines: (String, String))
    requires
        call_ensures(no_match_lines, (query,), lines),
    ensures
        lines.0@ == "radio: no station matching "@ + seq!['"'] + query@ + seq!['"'],
        lines.1@ == "Try: radio --list"@,
{
    reveal_strlit("radio: no station matching \"");
    reveal_strlit("radio: no station matching ");
    reveal_strlit("\"");
    assert("radio: no station matching \""@ =~= "radio: no station matching "@ + seq!['"']);
    assert("\""@ =~= seq!['"']);
}

/// The stream is given to ffmpeg as its one input, and goes to the speakers;
/// for the meter one channel of 8000 unsigned bytes a second goes to a pipe.
pub proof fn law_ffmpeg_args<'a>(url: &'a str, stream: Vec<&'a str>, direct: Vec<&'a str>)
    requires
        call_ensures(stream_args, (url,), stream),
        call_ensures(direct_args, (url,), direct),
    ensures
        stream@.len() == 15 && direct@.len() == 8,
        stream@[3] == "-i" && stream@[4] == url && direct@[3] == "-i" && direct@[4] == url,
        stream@.subrange(5, 8) == direct@.subrange(5, 8),
        direct@.subrange(5, 8) == seq!["-f", "audiotoolbox", "-"],
        stream@.subrange(8, 15) == seq!["-ac", "1", "-ar", "8000", "-f", "u8", "pipe:1"],
        stream@[2] == "-nostdin" && direct@[2] == "-nostdin",
{
    assert(direct@.subrange(5, 8) =~= seq!["-f", "audiotoolbox", "-"]);
    assert(stream@.subrange(5, 8) =~= seq!["-f", "audiotoolbox", "-"]);
    assert(stream@.subrange(8, 15) =~= seq!["-ac", "1", "-ar", "8000", "-f", "u8", "pipe:1"]);
}

/// The script names the volume in digits.
pub proof fn law_volume_script(volume: u8, script: String)
    requires
        call_ensures(volume_script, (volume,), script),
    ensures
        exists|digits: Seq<char>|
            is_notation(digits, volume as int) && script@ == #[trigger] (
            "set volume output volume "@ + digits),
{
    law_decimal(volume as nat);
    assert(script@ == "set volume output volume "@ + decimal(volume as nat));
}

/// A volume is read exactly from a number of at most 255, with white space
/// around it or not.
pub proof fn law_volume_of_text(text: &str, inner: Seq<char>, volume: Option<u8>)
    requires
        is_trimmed(text@, inner),
        call_ensures(volume_of_text, (text,), volume),
    ensures
        volume matches Some(v) ==> spells(inner, v as int),
        volume is None ==> forall|n: int| n <= 255 ==> !#[trigger] spells(inner, n),
{
    law_trim(text@);
    law_trimmed_is_unique(text@, inner, trim(text@));
    law_unsigned(inner, 255);
}

/// What the script printed is read as text.
pub proof fn law_volume_of_output(
    output: &[u8],
    text: &str,
    volume: Option<u8>,
    from_text: Option<u8>,
)
    requires
        text@ == utf8_lossy(output@) || (valid_utf8(output@) && text@ == decode_utf8(output@)),
        call_ensures(volume_of_output, (output,), volume),
        call_ensures(volume_of_text, (text,), from_text),
    ensures
        volume == from_text,
{
    assert(volume_of(volume) == volume_of(from_text));
}

} // verus!
