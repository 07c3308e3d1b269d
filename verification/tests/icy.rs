use radio::icy::{
    parse_icy_title, title_of_block, title_of_text, Backoff, FetchEnd, FetchStep, IcyReader, News,
    Stage,
};

fn block(text: &[u8]) -> Vec<u8> {
    let mut bytes = text.to_vec();
    while bytes.len() % 16 != 0 {
        bytes.push(0);
    }
    bytes
}

fn reader(metaint: &str) -> IcyReader {
    IcyReader::open(Some(metaint)).unwrap()
}

/// Feeds one stretch of audio, a length byte and a block.
fn feed(reader: &mut IcyReader, payload: &[u8]) -> News {
    let bytes = block(payload);
    assert_eq!(reader.next(false), FetchStep::Read(4));
    assert_eq!(reader.on_bytes(&[1, 2, 3, 4]), News::Nothing);
    assert_eq!(reader.next(true), FetchStep::Read(1));
    assert_eq!(reader.on_bytes(&[(bytes.len() / 16) as u8]), News::Nothing);
    if bytes.is_empty() {
        return News::Nothing;
    }
    assert_eq!(reader.next(true), FetchStep::Read(bytes.len()));
    reader.on_bytes(&bytes)
}

#[test]
fn raw_form_gives_the_quoted_title() {
    assert_eq!(
        parse_icy_title("StreamTitle='Artist - Track';StreamUrl='http://x';"),
        Some("Artist - Track")
    );
    assert_eq!(parse_icy_title("StreamTitle='';"), Some(""));
    assert_eq!(parse_icy_title("StreamTitle='It's all right';x"), Some("It's all right"));
    assert_eq!(parse_icy_title("junk StreamTitle='é▶';"), Some("é▶"));
}

#[test]
fn raw_form_without_semicolon_ends_at_the_last_quote() {
    assert_eq!(parse_icy_title("StreamTitle='It's' over'"), Some("It's' over"));
    assert_eq!(parse_icy_title("StreamTitle='a'"), Some("a"));
}

#[test]
fn block_form_takes_any_padding() {
    assert_eq!(parse_icy_title("    StreamTitle     : Artist - Track"), Some("Artist - Track"));
    assert_eq!(parse_icy_title("StreamTitle:x"), Some("x"));
    assert_eq!(parse_icy_title("StreamTitle \u{a0}: a: b \n"), Some("a: b"));
    assert_eq!(parse_icy_title("StreamTitle : "), Some(""));
}

#[test]
fn unclosed_quote_falls_back_to_the_colon() {
    assert_eq!(parse_icy_title("StreamTitle='abc: d"), Some("d"));
    assert_eq!(parse_icy_title("StreamTitle='abc"), None);
}

#[test]
fn lines_without_the_key_have_no_title() {
    assert_eq!(parse_icy_title(""), None);
    assert_eq!(parse_icy_title("StreamUrl='x';"), None);
    assert_eq!(parse_icy_title("streamtitle='x';"), None);
    assert_eq!(parse_icy_title("StreamTitle"), None);
}

#[test]
fn titles_are_trimmed_and_need_a_letter_or_number() {
    assert_eq!(title_of_text("StreamTitle='  a b ';"), Some("a b".to_string()));
    assert_eq!(title_of_text("StreamTitle=' - ';"), None);
    assert_eq!(title_of_text("StreamTitle='--- !!! ---';"), None);
    assert_eq!(title_of_text("StreamTitle=' 7 ';"), Some("7".to_string()));
    assert_eq!(title_of_text("StreamTitle='٣';"), Some("٣".to_string()));
    assert_eq!(title_of_text("StreamTitle='日本';"), Some("日本".to_string()));
    assert_eq!(title_of_text("nothing"), None);
}

#[test]
fn padding_zeros_are_left_out() {
    assert_eq!(title_of_block(b"StreamTitle='a';\0\0\0"), Some("a".to_string()));
    assert_eq!(title_of_block(b"StreamTitle='a\0b';"), None);
    assert_eq!(title_of_block(b"\0StreamTitle='a';"), None);
    assert_eq!(title_of_block(b""), None);
}

#[test]
fn malformed_bytes_are_replaced() {
    assert_eq!(title_of_block(b"StreamTitle='a\xFFb';"), Some("a\u{FFFD}b".to_string()));
    assert_eq!(title_of_block("StreamTitle='né';".as_bytes()), Some("né".to_string()));
    assert_eq!(title_of_block(b"StreamTitle='\xFF\xFE';"), None);
}

#[test]
fn header_decides_whether_there_is_metadata() {
    for header in [None, Some(""), Some("0"), Some("-5"), Some("abc"), Some(" 16000"), Some("1.5")] {
        assert!(matches!(IcyReader::open(header), Err(FetchEnd::NoMetadata)), "{:?}", header);
    }
    assert_eq!(reader("16000").next(false), FetchStep::Read(16000));
    assert_eq!(reader("+1").next(false), FetchStep::Read(1));
}

#[test]
fn stop_is_heeded_between_blocks_only() {
    let mut r = reader("4");
    assert_eq!(r.next(true), FetchStep::End(FetchEnd::Ended));
    assert_eq!(r.on_bytes(&[0; 4]), News::Nothing);
    assert_eq!(r.next(true), FetchStep::Read(1));
    assert_eq!(r.on_bytes(&[2]), News::Nothing);
    assert_eq!(r.stage, Stage::Metadata(32));
    assert_eq!(r.next(true), FetchStep::Read(32));
}

#[test]
fn longest_block_has_4080_bytes() {
    let mut r = reader("4");
    r.on_bytes(&[0; 4]);
    r.on_bytes(&[255]);
    assert_eq!(r.next(false), FetchStep::Read(4080));
}

#[test]
fn a_title_is_told_once() {
    let mut r = reader("4");
    assert_eq!(feed(&mut r, b"StreamTitle='a';"), News::Title(Some("a".to_string())));
    assert_eq!(feed(&mut r, b"StreamTitle=' a ';"), News::Nothing);
    assert_eq!(feed(&mut r, b""), News::Nothing);
    assert_eq!(feed(&mut r, b"StreamTitle='b';"), News::Title(Some("b".to_string())));
    assert_eq!(feed(&mut r, b"StreamTitle=' - ';"), News::Title(None));
    assert_eq!(feed(&mut r, b"StreamUrl='x';"), News::Nothing);
    assert_eq!(feed(&mut r, b"StreamTitle='b';"), News::Title(Some("b".to_string())));
}

#[test]
fn a_stream_without_title_tells_nothing() {
    let mut r = reader("4");
    assert_eq!(feed(&mut r, b"StreamTitle='';"), News::Nothing);
    assert_eq!(r.announce(None), News::Nothing);
    assert_eq!(r.announce(Some("x".to_string())), News::Title(Some("x".to_string())));
    assert_eq!(r.announce(Some("x".to_string())), News::Nothing);
}

#[test]
fn read_errors_end_or_fail() {
    assert_eq!(IcyReader::on_read_error(true), FetchEnd::Ended);
    assert_eq!(IcyReader::on_read_error(false), FetchEnd::Failed);
}

#[test]
fn pauses_double_up_to_the_bound() {
    let mut backoff = Backoff::new();
    let mut tenths = Vec::new();
    for _ in 0..7 {
        tenths.push(backoff.after(FetchEnd::Failed).unwrap());
    }
    assert_eq!(tenths, vec![20, 40, 80, 160, 300, 300, 300]);
    assert_eq!(backoff.after(FetchEnd::Ended), Some(10));
    assert_eq!(backoff.after(FetchEnd::Failed), Some(20));
    assert_eq!(backoff.after(FetchEnd::NoMetadata), None);
    assert_eq!(backoff.secs, 2);
}
