//! What the reader of track titles promises.

use vstd::prelude::*;
use vstd::utf8::{decode_utf8, valid_utf8};
use crate::icy::{
    has_alphanumeric, law_payload, law_raw_form, parse_icy_title, payload, payload_len,
    quoted_title, text_of, title_of_block, title_of_text, Backoff, FetchEnd, FetchStep, IcyReader,
    News, Stage,
};
use crate::laws::player::same_title;
use crate::laws::text::{
    absent, first_at, is_trimmed, law_trim, law_trimmed_already, law_trimmed_is_unique,
    law_unsigned, lemma_found, lemma_stands, spells, stands_at,
};
use crate::text::{find, law_rfind_is_last, occurs_at, rfind, trim, trim_start, unsigned};
use crate::unicode::{alphanumeric, utf8_lossy, white_space};

verus! {

/// What opens a title in quotes.
pub open spec fn opening() -> Seq<char> {
    "StreamTitle='"@
}

/// What closes it.
pub open spec fn closing() -> Seq<char> {
    "';"@
}

/// The word that a title follows.
pub open spec fn key_word() -> Seq<char> {
    "StreamTitle"@
}

/// There is a letter or a number in the text.
pub open spec fn says_something(text: Seq<char>) -> bool {
    exists|i: int| 0 <= i < text.len() && alphanumeric(#[trigger] text[i])
}

proof fn lemma_shifted(text: Seq<char>, part: Seq<char>, from: int, i: int)
    requires
        0 <= from <= text.len(),
        0 <= i,
    ensures
        stands_at(text.skip(from), part, i) <==> stands_at(text, part, from + i),
{
    let rest = text.skip(from);
    if stands_at(rest, part, i) {
        assert forall|k: int| 0 <= k < part.len() implies text[from + i + k]
            == #[trigger] part[k] by {
            assert(rest[i + k] == part[k]);
        }
    }
    if stands_at(text, part, from + i) {
        assert forall|k: int| 0 <= k < part.len() implies rest[i + k] == #[trigger] part[k] by {
            assert(text[from + i + k] == part[k]);
        }
    }
}

proof fn lemma_first_is_found(text: Seq<char>, part: Seq<char>, i: int)
    requires
        first_at(text, part, 0, i),
    ensures
        find(text, part) == Some(i),
{
    lemma_found(text, part, 0);
    if let Some(j) = find(text, part) {
        if i < j {
            assert(!stands_at(text, part, i));
        } else if j < i {
            assert(!stands_at(text, part, j));
        }
    } else {
        assert(!stands_at(text, part, i));
    }
}

proof fn lemma_absent_is_not_found(text: Seq<char>, part: Seq<char>)
    requires
        absent(text, part, 0),
    ensures
        find(text, part) is None,
{
    lemma_found(text, part, 0);
    if let Some(j) = find(text, part) {
        assert(!stands_at(text, part, j));
    }
}

proof fn lemma_first_behind(text: Seq<char>, part: Seq<char>, from: int, i: int)
    requires
        0 <= from <= text.len(),
        first_at(text, part, from, i),
    ensures
        find(text.skip(from), part) == Some(i - from),
{
    let rest = text.skip(from);
    lemma_shifted(text, part, from, i - from);
    assert forall|j: int| 0 <= j < i - from implies !#[trigger] stands_at(rest, part, j) by {
        lemma_shifted(text, part, from, j);
        assert(!stands_at(text, part, from + j));
    }
    lemma_first_is_found(rest, part, i - from);
}

proof fn lemma_absent_behind(text: Seq<char>, part: Seq<char>, from: int)
    requires
        0 <= from <= text.len(),
        absent(text, part, from),
    ensures
        find(text.skip(from), part) is None,
{
    let rest = text.skip(from);
    assert forall|j: int| 0 <= j implies !#[trigger] stands_at(rest, part, j) by {
        lemma_shifted(text, part, from, j);
        assert(!stands_at(text, part, from + j));
    }
    lemma_absent_is_not_found(rest, part);
}

/// A title in quotes is all that stands between the first opening and the
/// first closing behind it, whatever else is in the line.
pub proof fn law_quoted_title(line: &str, title: Option<&str>, open: int, close: int)
    requires
        first_at(line@, opening(), 0, open),
        first_at(line@, closing(), open + 13, close),
        call_ensures(parse_icy_title, (line,), title),
    ensures
        title matches Some(t) && t@ == line@.subrange(open + 13, close),
{
    reveal_strlit("StreamTitle='");
    let start = open + 13;
    lemma_first_is_found(line@, opening(), open);
    lemma_first_behind(line@, closing(), start, close);
    assert(line@.skip(start).take(close - start) =~= line@.subrange(start, close));
}

/// Without a closing it goes up to the last quote.
pub proof fn law_unclosed_title(line: &str, title: Option<&str>, open: int, quote: int)
    requires
        first_at(line@, opening(), 0, open),
        absent(line@, closing(), open + 13),
        open + 13 <= quote < line@.len(),
        line@[quote] == '\'',
        forall|j: int| quote < j < line@.len() ==> #[trigger] line@[j] != '\'',
        call_ensures(parse_icy_title, (line,), title),
    ensures
        title matches Some(t) && t@ == line@.subrange(open + 13, quote),
{
    reveal_strlit("StreamTitle='");
    let start = open + 13;
    let after = line@.skip(start);
    lemma_first_is_found(line@, opening(), open);
    lemma_absent_behind(line@, closing(), start);
    law_rfind_is_last(after, '\'');
    assert(after[quote - start] == '\'');
    if let Some(end) = rfind(after, '\'') {
        assert(after[end] == line@[start + end]);
    }
    assert(after.take(quote - start) =~= line@.subrange(start, quote));
}

/// The line holds no title in quotes: no opening, or no quote behind it.
pub open spec fn unquoted(line: Seq<char>) -> bool {
    ||| absent(line, opening(), 0)
    ||| exists|open: int| #[trigger]
        first_at(line, opening(), 0, open) && forall|j: int|
            open + 13 <= j < line.len() ==> #[trigger] line[j] != '\''
}

proof fn lemma_unquoted(line: Seq<char>)
    requires
        unquoted(line),
    ensures
        quoted_title(line) is None,
{
    reveal_strlit("StreamTitle='");
    reveal_strlit("';");
    if absent(line, opening(), 0) {
        lemma_absent_is_not_found(line, opening());
    } else {
        let open = choose|open: int| #[trigger]
            first_at(line, opening(), 0, open) && forall|j: int|
                open + 13 <= j < line.len() ==> #[trigger] line[j] != '\'';
        lemma_first_is_found(line, opening(), open);
        let start = open + 13;
        let after = line.skip(start);
        law_rfind_is_last(after, '\'');
        if let Some(end) = rfind(after, '\'') {
            assert(after[end] == line[start + end]);
        }
        assert forall|j: int| start <= j implies !#[trigger] stands_at(line, closing(), j) by {
            if stands_at(line, closing(), j) {
                assert(line[j + 0] == closing()[0]);
            }
        }
        lemma_absent_behind(line, closing(), start);
    }
}

proof fn lemma_colon(text: Seq<char>, from: int, colon: int)
    requires
        0 <= from <= colon < text.len(),
        text[colon] == ':',
        forall|j: int| from <= j < colon ==> #[trigger] text[j] != ':',
    ensures
        ({
            let rest = trim_start(text.skip(from));
            &&& find(rest, ":"@) is Some
            &&& rest.skip(find(rest, ":"@).unwrap() + 1) == text.skip(colon + 1)
        }),
    decreases text.len() - from,
{
    let tail = text.skip(from);
    if white_space(tail[0]) {
        assert(tail.drop_first() =~= text.skip(from + 1));
        lemma_colon(text, from + 1, colon);
    } else {
        reveal_strlit(":");
        assert(stands_at(text, ":"@, colon));
        assert forall|j: int| from <= j < colon implies !#[trigger] stands_at(text, ":"@, j) by {
            if stands_at(text, ":"@, j) {
                assert(text[j + 0] == ":"@[0]);
            }
        }
        lemma_first_behind(text, ":"@, from, colon);
        assert(tail.skip(colon - from + 1) =~= text.skip(colon + 1));
    }
}

proof fn lemma_no_colon(text: Seq<char>, from: int)
    requires
        0 <= from <= text.len(),
        forall|j: int| from <= j < text.len() ==> #[trigger] text[j] != ':',
    ensures
        find(trim_start(text.skip(from)), ":"@) is None,
    decreases text.len() - from,
{
    let tail = text.skip(from);
    if tail.len() > 0 && white_space(tail[0]) {
        assert(tail.drop_first() =~= text.skip(from + 1));
        lemma_no_colon(text, from + 1);
    } else {
        reveal_strlit(":");
        assert forall|j: int| from <= j implies !#[trigger] stands_at(text, ":"@, j) by {
            if stands_at(text, ":"@, j) {
                assert(text[j + 0] == ":"@[0]);
            }
        }
        lemma_absent_behind(text, ":"@, from);
    }
}

/// A line without a title in quotes has as its title all that stands behind
/// the first colon after the key word, without the white space around it.
pub proof fn law_listed_title(line: &str, title: Option<&str>, key: int, colon: int)
    requires
        unquoted(line@),
        first_at(line@, key_word(), 0, key),
        key + 11 <= colon < line@.len(),
        line@[colon] == ':',
        forall|j: int| key + 11 <= j < colon ==> #[trigger] line@[j] != ':',
        call_ensures(parse_icy_title, (line,), title),
    ensures
        title matches Some(t) && is_trimmed(line@.skip(colon + 1), t@),
{
    reveal_strlit("StreamTitle");
    lemma_unquoted(line@);
    lemma_first_is_found(line@, key_word(), key);
    lemma_colon(line@, key + 11, colon);
    law_trim(line@.skip(colon + 1));
}

/// A line has no title if it has none in quotes, and either not the key word
/// or no colon behind it.
pub proof fn law_no_title(line: &str, title: Option<&str>)
    requires
        unquoted(line@),
        absent(line@, key_word(), 0) || exists|key: int| #[trigger]
            first_at(line@, key_word(), 0, key) && forall|j: int|
                key + 11 <= j < line@.len() ==> #[trigger] line@[j] != ':',
        call_ensures(parse_icy_title, (line,), title),
    ensures
        title is None,
{
    reveal_strlit("StreamTitle");
    lemma_unquoted(line@);
    if absent(line@, key_word(), 0) {
        lemma_absent_is_not_found(line@, key_word());
    } else {
        let key = choose|key: int| #[trigger]
            first_at(line@, key_word(), 0, key) && forall|j: int|
                key + 11 <= j < line@.len() ==> #[trigger] line@[j] != ':';
        lemma_first_is_found(line@, key_word(), key);
        lemma_no_colon(line@, key + 11);
    }
}

/// The title that is shown is the whole title of the text without the white
/// space at its ends, if there is a letter or a number in it, and none
/// otherwise.
pub proof fn law_shown_whole(
    text: &str,
    parsed: Option<&str>,
    shown: Option<String>,
    inner: Seq<char>,
)
    requires
        call_ensures(parse_icy_title, (text,), parsed),
        call_ensures(title_of_text, (text,), shown),
        parsed is Some ==> is_trimmed(parsed.unwrap()@, inner),
    ensures
        parsed is None ==> shown is None,
        parsed is Some && says_something(inner) ==> (shown matches Some(t) && t@ == inner),
        parsed is Some && !says_something(inner) ==> shown is None,
{
    if let Some(p) = parsed {
        law_trim(p@);
        law_trimmed_is_unique(p@, inner, trim(p@));
        assert(says_something(inner) == has_alphanumeric(inner));
    }
}

/// A title that a server sends in quotes is shown whole, whatever it is: any
/// text without a closing in it, with no white space at its ends, and with a
/// letter or a number.
pub proof fn law_title_is_shown(text: &str, title: Seq<char>, rest: Seq<char>, shown: Option<String>)
    requires
        text@ == opening() + title + closing() + rest,
        absent(title, closing(), 0),
        title.len() > 0 ==> !white_space(title[0]) && !white_space(title.last()),
        says_something(title),
        call_ensures(title_of_text, (text,), shown),
    ensures
        shown matches Some(t) && t@ == title,
{
    assert forall|i: int| !#[trigger] occurs_at(title, "';"@, i) by {
        lemma_stands(title, "';"@, i);
        if i >= 0 {
            assert(!stands_at(title, closing(), i));
        }
    }
    law_raw_form(title, rest);
    law_trimmed_already(title);
    assert(has_alphanumeric(title));
}

/// The title of a metadata block is that of the text before its first zero.
pub proof fn law_block_is_text(
    block: &[u8],
    end: int,
    text: &str,
    from_block: Option<String>,
    from_text: Option<String>,
)
    requires
        0 <= end <= block@.len(),
        forall|i: int| 0 <= i < end ==> #[trigger] block@[i] != 0,
        end < block@.len() ==> block@[end] == 0,
        text@ == utf8_lossy(block@.take(end)) || (valid_utf8(block@.take(end)) && text@
            == decode_utf8(block@.take(end))),
        call_ensures(title_of_block, (block,), from_block),
        call_ensures(title_of_text, (text,), from_text),
    ensures
        same_title(from_block, from_text),
{
    law_payload(block@);
    let n = payload_len(block@) as int;
    if n < end {
        assert(block@[n] != 0);
    } else if end < n {
        assert(block@[end] != 0);
    }
    assert(payload(block@) == block@.take(end));
    assert(text_of(from_block) == text_of(from_text));
}

/// Metadata is read exactly where the server announces a positive interval:
/// a number in digits, that fits. It begins with a stretch of audio, and no
/// title is known yet.
pub proof fn law_open(header: Option<&str>, reader: Result<IcyReader, FetchEnd>)
    requires
        call_ensures(IcyReader::open, (header,), reader),
    ensures
        reader matches Ok(r) ==> header is Some && spells(header.unwrap()@, r.metaint as int)
            && r.metaint > 0 && r.stage is Audio && r.last_sent is None,
        reader matches Err(end) ==> end is NoMetadata && (header is Some ==> forall|n: int|
            0 < n <= usize::MAX ==> !#[trigger] spells(header.unwrap()@, n)),
{
    if let Some(value) = header {
        law_unsigned(value@, usize::MAX as nat);
        if reader is Err {
            assert forall|n: int| 0 < n <= usize::MAX implies !#[trigger] spells(value@, n) by {
                if unsigned(value@, usize::MAX as nat) is Some {
                    lemma_spells_one(value@, n, 0);
                }
            }
        }
    }
}

proof fn lemma_spells_one(text: Seq<char>, m: int, n: int)
    ensures
        spells(text, m) && spells(text, n) ==> m == n,
{
}

/// A reader asks for a stretch of audio as long as announced, for one byte of
/// length, and for a block as long as that byte says; it can be stopped
/// before the audio.
pub proof fn law_next(reader: &IcyReader, stop: bool, step: FetchStep)
    requires
        call_ensures(IcyReader::next, (reader, stop), step),
    ensures
        reader.stage is Audio && stop ==> step == FetchStep::End(FetchEnd::Ended),
        reader.stage is Audio && !stop ==> step == FetchStep::Read(reader.metaint),
        reader.stage is Length ==> step == FetchStep::Read(1),
        reader.stage matches Stage::Metadata(n) ==> step == FetchStep::Read(n),
{
}

/// Audio is followed by the byte of length; zero is followed by audio again,
/// and any other by a block of sixteen times as many bytes. Neither tells
/// anything.
pub proof fn law_between_blocks(reader: &mut IcyReader, bytes: &[u8], news: News)
    requires
        reader.wf(),
        !(reader.stage is Metadata),
        bytes@.len() == (if reader.stage is Audio {
            reader.metaint as int
        } else {
            1
        }),
        call_ensures(IcyReader::on_bytes, (reader, bytes), news),
    ensures
        news is Nothing,
        final(reader).metaint == old(reader).metaint,
        same_title(old(reader).last_sent, final(reader).last_sent),
        old(reader).stage is Audio ==> final(reader).stage is Length,
        old(reader).stage is Length && bytes@[0] == 0 ==> final(reader).stage is Audio,
        old(reader).stage is Length && bytes@[0] != 0 ==> (final(reader).stage matches
            Stage::Metadata(n) && n == 16 * bytes@[0]),
{
    let before = text_of(old(reader).last_sent);
    assert(text_of(final(reader).last_sent) == before);
}

/// A block is followed by audio. Its title is told exactly if it differs from
/// the one before, and is the one to compare with from there on.
pub proof fn law_block(reader: &mut IcyReader, bytes: &[u8], news: News, title: Option<String>)
    requires
        reader.wf(),
        reader.stage matches Stage::Metadata(n) && bytes@.len() == n,
        call_ensures(IcyReader::on_bytes, (reader, bytes), news),
        call_ensures(title_of_block, (bytes,), title),
    ensures
        final(reader).metaint == old(reader).metaint,
        final(reader).stage is Audio,
        same_title(title, final(reader).last_sent),
        news is Nothing <==> same_title(title, old(reader).last_sent),
        news matches News::Title(t) ==> same_title(t, title),
{
    let before = text_of(old(reader).last_sent);
    assert(text_of(final(reader).last_sent) == text_of(title));
    assert(text_of(title) == before <==> same_title(title, old(reader).last_sent));
}

/// A stream that ended is tried again, and so is one that broke; only the
/// former counts as an end in good order.
pub proof fn law_read_error(unexpected_eof: bool, end: FetchEnd)
    requires
        call_ensures(IcyReader::on_read_error, (unexpected_eof,), end),
    ensures
        unexpected_eof ==> end is Ended,
        !unexpected_eof ==> end is Failed,
{
}

/// The pause begins at one second. It doubles when a connection breaks, up to
/// thirty, and is one second again when a connection ends. Where there is no
/// metadata there is no other attempt. It is given in tenths of a second.
pub proof fn law_backoff(
    fresh: Backoff,
    backoff: &mut Backoff,
    end: FetchEnd,
    tenths: Option<u64>,
)
    requires
        backoff.wf(),
        call_ensures(Backoff::new, (), fresh),
        call_ensures(Backoff::after, (backoff, end), tenths),
    ensures
        fresh.secs == 1,
        end is NoMetadata ==> tenths is None,
        end is Ended ==> final(backoff).secs == 1,
        end is Failed && old(backoff).secs <= 15 ==> final(backoff).secs == 2 * old(backoff).secs,
        end is Failed && old(backoff).secs > 15 ==> final(backoff).secs == 30,
        !(end is NoMetadata) ==> tenths == Some((10 * final(backoff).secs) as u64),
{
}

} // verus!
