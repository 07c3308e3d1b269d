use radio::cli::{
    direct_args, help_lines, join_words, no_match_lines, parse_args, playing_lines, station_list,
    stream_args, volume_of_output, volume_of_text, volume_script, Command,
};
use radio::station::{stations, Station};

fn args(list: &[&str]) -> Vec<String> {
    list.iter().map(|s| s.to_string()).collect()
}

#[test]
fn arguments_choose_the_command() {
    assert_eq!(parse_args(&args(&[])), Command::Tui);
    assert_eq!(parse_args(&args(&["--help"])), Command::Help);
    assert_eq!(parse_args(&args(&["-h", "x"])), Command::Help);
    assert_eq!(parse_args(&args(&["--list"])), Command::List);
    assert_eq!(parse_args(&args(&["-l"])), Command::List);
    assert_eq!(parse_args(&args(&["kexp"])), Command::Play("kexp".to_string()));
    assert_eq!(parse_args(&args(&["fip", "jazz"])), Command::Play("fip jazz".to_string()));
    assert_eq!(parse_args(&args(&["x", "--help"])), Command::Play("x --help".to_string()));
    assert_eq!(parse_args(&args(&[""])), Command::Play(String::new()));
}

#[test]
fn words_are_joined_with_spaces() {
    assert_eq!(join_words(&args(&["a", "", "b"])), "a  b");
    assert_eq!(join_words(&args(&[])), "");
}

#[test]
fn help_tells_the_usage() {
    let lines = help_lines();
    assert_eq!(lines.len(), 9);
    assert_eq!(lines[0], "Usage: radio [station-name | --list | --help]");
    assert_eq!(lines[8], "  --help, -h      Show this help message");
}

#[test]
fn stations_are_listed_by_category() {
    let list = stations();
    let lines = station_list(&list, false);
    assert_eq!(lines.len(), 19 + 2 * 8 + 1);
    assert_eq!(lines[0], "");
    assert_eq!(lines[1], "BBC");
    assert_eq!(
        lines[2],
        format!("  {:<36} {:<10}  {}", "BBC 6 Music", "AAC 320k", "Alternative music station")
    );
    assert_eq!(lines[3], "");
    assert_eq!(lines[4], "FIP");
    assert_eq!(lines[lines.len() - 1], "");
    for category in ["BBC", "FIP", "France Musique", "KALX", "KCRW", "KEXP", "NTS", "WFMU"] {
        assert_eq!(lines.iter().filter(|line| *line == category).count(), 1);
    }
}

#[test]
fn a_terminal_gets_styles() {
    let list = stations();
    let lines = station_list(&list, true);
    assert_eq!(lines[1], "\x1b[1mBBC\x1b[0m");
    assert_eq!(
        lines[2],
        format!(
            "  {:<36} \x1b[2m{:<10}\x1b[0m  {}",
            "BBC 6 Music", "AAC 320k", "Alternative music station"
        )
    );
}

#[test]
fn a_category_that_comes_back_has_another_heading() {
    let of = |category| Station { name: "n", url: "u", category, desc: "d", quality: "q" };
    let lines = station_list(&vec![of("A"), of("A"), of("B"), of("A"), of("")], false);
    let line = format!("  {:<36} {:<10}  d", "n", "q");
    let expected = ["", "A", &line, &line, "", "B", &line, "", "A", &line, "", "", &line, ""];
    assert_eq!(lines, expected);
    assert_eq!(station_list(&Vec::new(), true), vec![""]);
}

#[test]
fn playing_is_announced() {
    let kexp = stations()[15];
    let (playing, hint) = playing_lines(&kexp, false);
    assert_eq!(playing, "Playing: KEXP  [AAC 160k]");
    assert_eq!(hint, "Press Ctrl+C to stop");
    let (playing, hint) = playing_lines(&kexp, true);
    assert_eq!(playing, "\x1b[1mPlaying:\x1b[0m KEXP  \x1b[2m[AAC 160k]\x1b[0m");
    assert_eq!(hint, "\x1b[2mPress Ctrl+C to stop\x1b[0m");
}

#[test]
fn a_failed_search_is_reported() {
    let (message, hint) = no_match_lines("x y");
    assert_eq!(message, "radio: no station matching \"x y\"");
    assert_eq!(hint, "Try: radio --list");
}

#[test]
fn ffmpeg_gets_its_arguments() {
    assert_eq!(
        stream_args("U").join(" "),
        "-loglevel quiet -nostdin -i U -f audiotoolbox - -ac 1 -ar 8000 -f u8 pipe:1"
    );
    assert_eq!(direct_args("U").join(" "), "-loglevel error -nostdin -i U -f audiotoolbox -");
}

#[test]
fn volume_is_written_and_read() {
    assert_eq!(volume_script(7), "set volume output volume 7");
    assert_eq!(volume_script(100), "set volume output volume 100");
    assert_eq!(volume_of_output(b"42\n"), Some(42));
    assert_eq!(volume_of_output(b"  +7 \r\n"), Some(7));
    assert_eq!(volume_of_output(b"255"), Some(255));
    assert_eq!(volume_of_output(b"256"), None);
    assert_eq!(volume_of_output(b"missing value\n"), None);
    assert_eq!(volume_of_output(b""), None);
    assert_eq!(volume_of_output(b"4\xFF2"), None);
    assert_eq!(volume_of_output("\u{3000}9\u{a0}".as_bytes()), Some(9));
    assert_eq!(volume_of_text("-1"), None);
}
