//! Track titles out of ICY metadata.
//!
//! An icecast or shoutcast server interleaves its audio with metadata: after
//! every `icy-metaint` bytes of audio stands one length byte, and behind it
//! sixteen times that many bytes of metadata, padded with zeros.

use vstd::prelude::*;
use vstd::arithmetic::power2::{lemma2_to64, lemma_pow2_unfold, pow2};
use vstd::slice::slice_subrange;
use vstd::utf8::{decode_utf8, valid_utf8};
use crate::text::{
    chars_of, find, find_chars, law_find_is_first, law_trim_ends, occurs_at, parse_unsigned, rfind,
    rfind_char, same_text, skip_white, trim, trim_range, trim_start, unsigned,
};
use crate::unicode::{alphanumeric, from_utf8_lossy, utf8_lossy, white_space};

verus! {

/// The title of the raw payload form: behind `StreamTitle='`, up to the first
/// `';`, or failing that up to the last quote.
pub open spec fn quoted_title(line: Seq<char>) -> Option<Seq<char>> {
    match find(line, "StreamTitle='"@) {
        Some(at) => {
            let after = line.skip(at + "StreamTitle='"@.len());
            match find(after, "';"@) {
                Some(end) => Some(after.take(end)),
                None => match rfind(after, '\'') {
                    Some(end) => Some(after.take(end)),
                    None => None,
                },
            }
        },
        None => None,
    }
}

/// The title of the metadata block form: what stands behind the first colon
/// after `StreamTitle`, without the white space around it.
pub open spec fn listed_title(line: Seq<char>) -> Option<Seq<char>> {
    match find(line, "StreamTitle"@) {
        Some(at) => {
            let rest = trim_start(line.skip(at + "StreamTitle"@.len()));
            match find(rest, ":"@) {
                Some(colon) => Some(trim(rest.skip(colon + 1))),
                None => None,
            }
        },
        None => None,
    }
}

/// The title that a line of metadata holds.
pub open spec fn icy_title(line: Seq<char>) -> Option<Seq<char>> {
    match quoted_title(line) {
        Some(title) => Some(title),
        None => listed_title(line),
    }
}

/// The title in a line of metadata, in either of two forms:
///
/// - `StreamTitle='Artist - Track';StreamUrl='...';`, the raw payload, and
/// - `    StreamTitle     : Artist - Track`, with any padding.
pub fn parse_icy_title(line: &str) -> (title: Option<&str>)
    ensures
        title matches Some(t) ==> icy_title(line@) == Some(t@),
        title is None ==> icy_title(line@) is None,
{
    let chars: Vec<char> = chars_of(line);
    let len: usize = chars.len();
    let quoted: Vec<char> = chars_of("StreamTitle='");
    if let Some(at) = find_chars(&chars, &quoted, 0) {
        let after: &str = line.substring_char(at + quoted.len(), len);
        assert(after@ =~= line@.skip(at + "StreamTitle='"@.len()));
        let after_chars: Vec<char> = chars_of(after);
        let close: Vec<char> = chars_of("';");
        if let Some(end) = find_chars(&after_chars, &close, 0) {
            let title: &str = after.substring_char(0, end);
            assert(title@ =~= after@.take(end as int));
            return Some(title);
        }
        if let Some(end) = rfind_char(&after_chars, '\'') {
            let title: &str = after.substring_char(0, end);
            assert(title@ =~= after@.take(end as int));
            return Some(title);
        }
    }
    let key: Vec<char> = chars_of("StreamTitle");
    if let Some(at) = find_chars(&chars, &key, 0) {
        let start: usize = skip_white(&chars, at + key.len(), len);
        let rest: &str = line.substring_char(start, len);
        assert(line@.subrange(at + "StreamTitle"@.len(), len as int) =~= line@.skip(
            at + "StreamTitle"@.len(),
        ));
        let rest_chars: Vec<char> = chars_of(rest);
        let colon: Vec<char> = chars_of(":");
        proof {
            reveal_strlit(":");
        }
        if let Some(p) = find_chars(&rest_chars, &colon, 0) {
            let n: usize = rest_chars.len();
            let (from, to): (usize, usize) = trim_range(&rest_chars, p + 1, n);
            assert(rest@.subrange(p + 1, n as int) =~= rest@.skip(p + 1));
            return Some(rest.substring_char(from, to));
        }
    }
    None
}

/// In the raw payload form the title is what stands between the quotes: any
/// text that does not itself hold a quote followed by a semicolon.
pub proof fn law_raw_form(title: Seq<char>, rest: Seq<char>)
    requires
        forall|i: int| !#[trigger] occurs_at(title, "';"@, i),
    ensures
        icy_title("StreamTitle='"@ + title + "';"@ + rest) == Some(title),
{
    let key = "StreamTitle='"@;
    let close = "';"@;
    let line = key + title + close + rest;
    let after = title + close + rest;
    assert(line.subrange(0, key.len() as int) =~= key);
    assert(find(line, key) == Some(0int)) by {
        assert(occurs_at(line, key, 0));
    }
    assert(line.skip(key.len() as int) =~= after);
    assert(find(after, close) == Some(title.len() as int)) by {
        lemma_closing_quote(title, rest);
    }
    assert(after.take(title.len() as int) =~= title);
}

proof fn lemma_closing_quote(title: Seq<char>, rest: Seq<char>)
    requires
        forall|i: int| !#[trigger] occurs_at(title, "';"@, i),
    ensures
        find(title + "';"@ + rest, "';"@) == Some(title.len() as int),
{
    let close = "';"@;
    let after = title + close + rest;
    let n = title.len() as int;
    reveal_strlit("';");
    assert(after.subrange(n, n + 2) =~= close);
    assert(occurs_at(after, close, n));
    assert forall|j: int| 0 <= j < n implies !#[trigger] occurs_at(after, close, j) by {
        if occurs_at(after, close, j) {
            let found = after.subrange(j, j + 2);
            assert(found[0] == after[j] && found[1] == after[j + 1]);
            if j + 1 < n {
                assert(title.subrange(j, j + 2) =~= found);
                assert(occurs_at(title, close, j));
            } else {
                assert(after[j + 1] == close[0]);
            }
        }
    }
    law_find_is_first(after, close);
}

/// In the metadata block form the title is what stands behind the colon, for
/// any padding, wherever the line has no opening quote behind the key.
pub proof fn law_block_form(indent: Seq<char>, padding: Seq<char>, value: Seq<char>)
    requires
        forall|i: int| 0 <= i < indent.len() ==> white_space(#[trigger] indent[i]),
        forall|i: int| 0 <= i < padding.len() ==> white_space(#[trigger] padding[i]),
        forall|i: int|
            !#[trigger] occurs_at(
                indent + "StreamTitle"@ + padding + ":"@ + value,
                "StreamTitle='"@,
                i,
            ),
    ensures
        icy_title(indent + "StreamTitle"@ + padding + ":"@ + value) == Some(trim(value)),
{
    let key = "StreamTitle"@;
    let line = indent + key + padding + ":"@ + value;
    reveal_strlit("StreamTitle");
    reveal_strlit(":");
    let at = indent.len() as int;
    law_find_is_first(line, "StreamTitle='"@);
    law_find_is_first(line, key);
    assert(line.subrange(at, at + key.len()) =~= key);
    assert(occurs_at(line, key, at));
    assert forall|j: int| j < at implies !#[trigger] occurs_at(line, key, j) by {
        if occurs_at(line, key, j) {
            assert(line.subrange(j, j + key.len())[0] == line[j]);
            assert(line[j] == indent[j]);
        }
    }
    let tail = line.skip(at + key.len());
    let rest = ":"@ + value;
    assert(tail =~= padding + rest);
    lemma_trim_start_padding(padding, rest);
    law_find_is_first(rest, ":"@);
    assert(rest.subrange(0, 1) =~= ":"@);
    assert(occurs_at(rest, ":"@, 0));
    assert(rest.skip(1) =~= value);
}

proof fn lemma_trim_start_padding(padding: Seq<char>, rest: Seq<char>)
    requires
        forall|i: int| 0 <= i < padding.len() ==> white_space(#[trigger] padding[i]),
        rest.len() > 0,
        !white_space(rest[0]),
    ensures
        trim_start(padding + rest) == rest,
    decreases padding.len(),
{
    let all = padding + rest;
    if padding.len() > 0 {
        assert(all.drop_first() =~= padding.drop_first() + rest);
        lemma_trim_start_padding(padding.drop_first(), rest);
    } else {
        assert(all =~= rest);
    }
}

/// A text that has at least one letter or number.
pub open spec fn has_alphanumeric(s: Seq<char>) -> bool {
    exists|i: int| 0 <= i < s.len() && alphanumeric(#[trigger] s[i])
}

/// The title to show for a text of metadata: the one it holds, trimmed, and
/// only if there is a letter or a number in it.
pub open spec fn shown_title(text: Seq<char>) -> Option<Seq<char>> {
    match icy_title(text) {
        Some(title) => if has_alphanumeric(trim(title)) {
            Some(trim(title))
        } else {
            None
        },
        None => None,
    }
}

/// A title that is shown has no white space at its ends, and has a letter or
/// a number.
pub proof fn law_shown_title(text: Seq<char>)
    ensures
        shown_title(text) matches Some(title) ==> trim(title) == title && has_alphanumeric(title),
{
    if let Some(title) = icy_title(text) {
        law_trim_ends(title);
    }
}

/// The characters of an optional string.
pub open spec fn text_of(title: Option<String>) -> Option<Seq<char>> {
    match title {
        Some(t) => Some(t@),
        None => None,
    }
}

/// The title to show for a text of metadata.
pub fn title_of_text(text: &str) -> (title: Option<String>)
    ensures
        text_of(title) == shown_title(text@),
{
    match parse_icy_title(text) {
        None => None,
        Some(found) => {
            let chars: Vec<char> = chars_of(found);
            let len: usize = chars.len();
            let (from, to): (usize, usize) = trim_range(&chars, 0, len);
            assert(chars@.subrange(0, len as int) =~= found@);
            let title: &str = found.substring_char(from, to);
            let mut i: usize = from;
            while i < to
                invariant
                    from <= i <= to <= chars@.len(),
                    title@ == chars@.subrange(from as int, to as int),
                    title@ == trim(found@),
                    icy_title(text@) == Some(found@),
                    forall|k: int| 0 <= k < i - from ==> !alphanumeric(#[trigger] title@[k]),
                decreases to - i,
            {
                assert(title@[i - from] == chars@[i as int]);
                if chars[i].is_alphanumeric() {
                    return Some(String::from_str(title));
                }
                i = i + 1;
            }
            None
        },
    }
}

/// How many bytes stand before the first zero.
pub open spec fn payload_len(block: Seq<u8>) -> nat
    decreases block.len(),
{
    if block.len() == 0 || block[0] == 0 {
        0
    } else {
        1 + payload_len(block.drop_first())
    }
}

/// A metadata block without the zeros that pad it.
pub open spec fn payload(block: Seq<u8>) -> Seq<u8> {
    block.take(payload_len(block) as int)
}

/// The payload is the longest prefix of the block without a zero.
pub proof fn law_payload(block: Seq<u8>)
    ensures
        payload_len(block) <= block.len(),
        forall|i: int| 0 <= i < payload_len(block) ==> #[trigger] block[i] != 0,
        payload_len(block) < block.len() ==> block[payload_len(block) as int] == 0,
    decreases block.len(),
{
    if block.len() > 0 && block[0] != 0 {
        let rest = block.drop_first();
        law_payload(rest);
        assert forall|i: int| 0 <= i < payload_len(block) implies #[trigger] block[i] != 0 by {
            if i > 0 {
                assert(block[i] == rest[i - 1]);
            }
        }
    }
}

/// The title to show for a metadata block.
pub open spec fn block_title(block: Seq<u8>) -> Option<Seq<char>> {
    shown_title(utf8_lossy(payload(block)))
}

/// The title to show for a metadata block as the server sent it.
pub fn title_of_block(block: &[u8]) -> (title: Option<String>)
    ensures
        text_of(title) == block_title(block@),
        valid_utf8(payload(block@)) ==> text_of(title) == shown_title(
            decode_utf8(payload(block@)),
        ),
{
    let mut end: usize = 0;
    assert(block@.skip(0) =~= block@);
    while end < block.len() && block[end] != 0
        invariant
            end <= block@.len(),
            payload_len(block@) == end + payload_len(block@.skip(end as int)),
        decreases block@.len() - end,
    {
        assert(block@.skip(end as int).drop_first() =~= block@.skip(end + 1));
        end = end + 1;
    }
    let text: String = from_utf8_lossy(slice_subrange(block, 0, end));
    assert(block@.subrange(0, end as int) =~= payload(block@));
    title_of_text(text.as_str())
}

/// The interval between metadata blocks that a response announces: the value
/// of its `icy-metaint` header, if that is a positive number.
pub open spec fn metaint(header: Option<Seq<char>>) -> Option<nat> {
    match header {
        Some(value) => match unsigned(value, usize::MAX as nat) {
            Some(n) => if n > 0 {
                Some(n)
            } else {
                None
            },
            None => None,
        },
        None => None,
    }
}

/// How an attempt to read metadata from a server ends.
#[derive(Clone, Copy, PartialEq, Eq, Structural, Debug)]
pub enum FetchEnd {
    /// The server sends no metadata; there is no use in asking again.
    NoMetadata,
    /// The connection is over, or nobody listens any more.
    Ended,
    /// The connection broke; it is worth another try.
    Failed,
}

/// What comes next in the stream.
#[derive(Clone, Copy, PartialEq, Eq, Structural, Debug)]
pub enum Stage {
    /// A stretch of audio.
    Audio,
    /// The byte that gives the length of the metadata.
    Length,
    /// A metadata block of so many bytes.
    Metadata(usize),
}

/// What a reader has to do next.
#[derive(Clone, Copy, PartialEq, Eq, Structural, Debug)]
pub enum FetchStep {
    /// Read exactly so many bytes.
    Read(usize),
    /// Stop reading.
    End(FetchEnd),
}

/// What a reader makes of the bytes that it was given.
#[derive(PartialEq, Eq, Debug)]
pub enum News {
    /// Nothing that the listener does not know.
    Nothing,
    /// The title changed: to this one, or to none.
    Title(Option<String>),
}

/// The content of [`News`]: `None` where there is nothing to tell.
pub open spec fn told(news: News) -> Option<Option<Seq<char>>> {
    match news {
        News::Nothing => None,
        News::Title(title) => Some(text_of(title)),
    }
}

/// A reader's state: the interval, the stage, and the title told last.
pub struct ReaderState {
    pub metaint: nat,
    pub stage: Stage,
    pub last: Option<Seq<char>>,
}

/// How many bytes the stage takes.
pub open spec fn stage_len(s: ReaderState) -> nat {
    match s.stage {
        Stage::Audio => s.metaint,
        Stage::Length => 1,
        Stage::Metadata(n) => n as nat,
    }
}

/// The state behind the bytes of one stage.
pub open spec fn after_stage(s: ReaderState, bytes: Seq<u8>) -> ReaderState {
    match s.stage {
        Stage::Audio => ReaderState { stage: Stage::Length, ..s },
        Stage::Length => ReaderState {
            stage: if bytes[0] == 0 {
                Stage::Audio
            } else {
                Stage::Metadata((bytes[0] * 16) as usize)
            },
            ..s
        },
        Stage::Metadata(_) => ReaderState { stage: Stage::Audio, last: block_title(bytes), ..s },
    }
}

/// What the bytes of one stage tell: a title that differs from the last one.
pub open spec fn stage_news(s: ReaderState, bytes: Seq<u8>) -> Option<Option<Seq<char>>> {
    if s.stage is Metadata && block_title(bytes) != s.last {
        Some(block_title(bytes))
    } else {
        None
    }
}

/// Follows a stream and tells when the title changes.
#[derive(Debug)]
pub struct IcyReader {
    pub metaint: usize,
    pub stage: Stage,
    pub last_sent: Option<String>,
}

impl View for IcyReader {
    type V = ReaderState;

    open spec fn view(&self) -> ReaderState {
        ReaderState {
            metaint: self.metaint as nat,
            stage: self.stage,
            last: text_of(self.last_sent),
        }
    }
}

impl IcyReader {
    /// A stage takes at least one byte, and a block at most what a byte of
    /// length can announce.
    pub open spec fn wf(&self) -> bool {
        &&& self.metaint > 0
        &&& self.stage matches Stage::Metadata(n) ==> 0 < n <= 4080
    }

    /// A reader for a response with the given `icy-metaint` header.
    pub fn open(header: Option<&str>) -> (reader: Result<IcyReader, FetchEnd>)
        ensures
            reader matches Ok(r) ==> r.wf() && header is Some && metaint(Some(header.unwrap()@))
                == Some(r@.metaint) && r@.stage == Stage::Audio && r@.last is None,
            reader matches Err(end) ==> end == FetchEnd::NoMetadata && (header is None || metaint(
                Some(header.unwrap()@),
            ) is None),
    {
        match header {
            None => Err(FetchEnd::NoMetadata),
            Some(value) => {
                let chars: Vec<char> = chars_of(value);
                let len: usize = chars.len();
                let number: Option<usize> = parse_unsigned(&chars, 0, len, usize::MAX);
                assert(chars@.subrange(0, len as int) =~= value@);
                match number {
                    Some(n) => if n > 0 {
                        Ok(IcyReader { metaint: n, stage: Stage::Audio, last_sent: None })
                    } else {
                        Err(FetchEnd::NoMetadata)
                    },
                    None => Err(FetchEnd::NoMetadata),
                }
            },
        }
    }

    /// What to do next. A request to stop is heeded between two blocks.
    pub fn next(&self, stop: bool) -> (step: FetchStep)
        ensures
            step == (if self.stage == Stage::Audio && stop {
                FetchStep::End(FetchEnd::Ended)
            } else {
                FetchStep::Read(stage_len(self@) as usize)
            }),
    {
        match self.stage {
            Stage::Audio => if stop {
                FetchStep::End(FetchEnd::Ended)
            } else {
                FetchStep::Read(self.metaint)
            },
            Stage::Length => FetchStep::Read(1),
            Stage::Metadata(n) => FetchStep::Read(n),
        }
    }

    /// Takes the bytes that [`IcyReader::next`] asked for.
    pub fn on_bytes(&mut self, bytes: &[u8]) -> (news: News)
        requires
            old(self).wf(),
            bytes@.len() == stage_len(old(self)@),
        ensures
            final(self).wf(),
            final(self)@ == after_stage(old(self)@, bytes@),
            told(news) == stage_news(old(self)@, bytes@),
            old(self)@.stage is Metadata && valid_utf8(payload(bytes@)) ==> final(self)@.last
                == shown_title(decode_utf8(payload(bytes@))),
    {
        match self.stage {
            Stage::Audio => {
                self.stage = Stage::Length;
                News::Nothing
            },
            Stage::Length => {
                let len: usize = bytes[0] as usize * 16;
                self.stage = if len == 0 {
                    Stage::Audio
                } else {
                    Stage::Metadata(len)
                };
                News::Nothing
            },
            Stage::Metadata(_) => {
                self.stage = Stage::Audio;
                let title: Option<String> = title_of_block(bytes);
                self.announce(title)
            },
        }
    }

    /// Notes the title of a block; it is news where it differs from the last.
    pub fn announce(&mut self, title: Option<String>) -> (news: News)
        ensures
            final(self)@ == (ReaderState { last: text_of(title), ..old(self)@ }),
            told(news) == (if text_of(title) != old(self)@.last {
                Some(text_of(title))
            } else {
                None
            }),
    {
        if same_title(&title, &self.last_sent) {
            News::Nothing
        } else {
            let copy: Option<String> = copy_title(&title);
            self.last_sent = title;
            News::Title(copy)
        }
    }

    /// What a failed read means: the end of the stream, or a broken connection.
    pub fn on_read_error(unexpected_eof: bool) -> (end: FetchEnd)
        ensures
            end == (if unexpected_eof {
                FetchEnd::Ended
            } else {
                FetchEnd::Failed
            }),
    {
        if unexpected_eof {
            FetchEnd::Ended
        } else {
            FetchEnd::Failed
        }
    }
}

/// Whether two optional titles are the same.
fn same_title(a: &Option<String>, b: &Option<String>) -> (same: bool)
    ensures
        same == (text_of(*a) == text_of(*b)),
{
    match (a, b) {
        (Some(x), Some(y)) => same_text(x.as_str(), y.as_str()),
        (None, None) => true,
        _ => false,
    }
}

/// A copy of an optional title.
fn copy_title(title: &Option<String>) -> (copy: Option<String>)
    ensures
        text_of(copy) == text_of(*title),
{
    match title {
        Some(t) => Some(t.clone()),
        None => None,
    }
}

/// The state behind a run of stages.
pub open spec fn run_state(s: ReaderState, chunks: Seq<Seq<u8>>) -> ReaderState
    decreases chunks.len(),
{
    if chunks.len() == 0 {
        s
    } else {
        after_stage(run_state(s, chunks.drop_last()), chunks.last())
    }
}

/// All that is told over a run of stages, in order.
pub open spec fn run_news(s: ReaderState, chunks: Seq<Seq<u8>>) -> Seq<Option<Seq<char>>>
    decreases chunks.len(),
{
    if chunks.len() == 0 {
        seq![]
    } else {
        let before = run_news(s, chunks.drop_last());
        match stage_news(run_state(s, chunks.drop_last()), chunks.last()) {
            Some(title) => before.push(title),
            None => before,
        }
    }
}

/// What the listener believes after some news: the last of it.
pub open spec fn believed(
    start: Option<Seq<char>>,
    news: Seq<Option<Seq<char>>>,
) -> Option<Seq<char>> {
    if news.len() == 0 {
        start
    } else {
        news.last()
    }
}

/// Whatever the stream holds, the listener knows the title of the last block,
/// and is never told a title that it already knows.
pub proof fn law_listener_is_up_to_date(s: ReaderState, chunks: Seq<Seq<u8>>)
    ensures
        run_state(s, chunks).last == believed(s.last, run_news(s, chunks)),
        forall|i: int|
            0 <= i < run_news(s, chunks).len() ==> #[trigger] run_news(s, chunks)[i] != believed(
                s.last,
                run_news(s, chunks).take(i),
            ),
    decreases chunks.len(),
{
    if chunks.len() > 0 {
        let front = chunks.drop_last();
        law_listener_is_up_to_date(s, front);
        let before = run_news(s, front);
        let news = run_news(s, chunks);
        assert forall|i: int| 0 <= i < news.len() implies #[trigger] news[i] != believed(
            s.last,
            news.take(i),
        ) by {
            assert(news.take(i) =~= before.take(i));
            if i == before.len() {
                assert(before.take(i) =~= before);
            } else {
                assert(news[i] == before[i]);
            }
        }
    }
}

/// A reader between two blocks that is given a stretch of audio, the length
/// byte and the block that it announces is between two blocks again, holds
/// the title of the block, and tells it if it is new.
pub proof fn law_one_block(s: ReaderState, audio: Seq<u8>, length: u8, block: Seq<u8>)
    requires
        s.stage == Stage::Audio,
        length > 0,
    ensures
        ({
            let s1 = after_stage(s, audio);
            let s2 = after_stage(s1, seq![length]);
            let s3 = after_stage(s2, block);
            &&& stage_len(s1) == 1
            &&& stage_len(s2) == 16 * length
            &&& s3 == ReaderState { last: block_title(block), ..s }
            &&& stage_news(s, audio) is None
            &&& stage_news(s1, seq![length]) is None
            &&& stage_news(s2, block) == (if block_title(block) != s.last {
                Some(block_title(block))
            } else {
                None
            })
        }),
{
}

/// A length byte of zero announces no block: nothing is told, and the title
/// stays.
pub proof fn law_empty_block(s: ReaderState, audio: Seq<u8>)
    requires
        s.stage == Stage::Audio,
    ensures
        run_state(s, seq![audio, seq![0u8]]) == s,
        run_news(s, seq![audio, seq![0u8]]) == Seq::<Option<Seq<char>>>::empty(),
{
    let chunks = seq![audio, seq![0u8]];
    assert(chunks.drop_last() =~= seq![audio]);
    assert(seq![audio].drop_last() =~= Seq::<Seq<u8>>::empty());
    reveal_with_fuel(run_state, 3);
    reveal_with_fuel(run_news, 3);
}

/// The longest pause between two attempts, in seconds.
pub const MAX_BACKOFF_SECS: u64 = 30;

/// The pause between attempts to read metadata: it doubles with every failure
/// up to a bound, and starts over when a connection ends in good order.
#[derive(Clone, Copy, PartialEq, Eq, Structural, Debug)]
pub struct Backoff {
    pub secs: u64,
}

/// The pause in seconds after an attempt that ended so.
pub open spec fn next_pause(secs: nat, end: FetchEnd) -> nat {
    match end {
        FetchEnd::Failed => if 2 * secs <= MAX_BACKOFF_SECS {
            2 * secs
        } else {
            MAX_BACKOFF_SECS as nat
        },
        _ => 1,
    }
}

impl Backoff {
    /// The pause lies between one second and the bound.
    pub open spec fn wf(&self) -> bool {
        1 <= self.secs <= MAX_BACKOFF_SECS
    }

    /// The pause before anything failed.
    pub fn new() -> (backoff: Backoff)
        ensures
            backoff.secs == 1,
            backoff.wf(),
    {
        Backoff { secs: 1 }
    }

    /// Notes how an attempt ended. Gives the number of tenths of a second to
    /// pause before the next one, or `None` if there is to be none.
    pub fn after(&mut self, end: FetchEnd) -> (tenths: Option<u64>)
        requires
            old(self).wf(),
        ensures
            final(self).wf(),
            end == FetchEnd::NoMetadata ==> tenths is None && *final(self) == *old(self),
            end != FetchEnd::NoMetadata ==> final(self).secs == next_pause(
                old(self).secs as nat,
                end,
            ) && tenths == Some((10 * final(self).secs) as u64),
    {
        match end {
            FetchEnd::NoMetadata => {
                return None;
            },
            FetchEnd::Ended => {
                self.secs = 1;
            },
            FetchEnd::Failed => {
                let doubled: u64 = self.secs * 2;
                self.secs = if doubled < MAX_BACKOFF_SECS {
                    doubled
                } else {
                    MAX_BACKOFF_SECS
                };
            },
        }
        Some(self.secs * 10)
    }
}

/// The pause after so many failures in a row, from `secs` on.
pub open spec fn pause_after_failures(secs: nat, failures: nat) -> nat
    decreases failures,
{
    if failures == 0 {
        secs
    } else {
        next_pause(pause_after_failures(secs, (failures - 1) as nat), FetchEnd::Failed)
    }
}

/// Failures in a row double the pause from one second up to the bound: after
/// `n` of them it is 2 to the `n`, or the bound if that is less.
pub proof fn law_backoff_doubles(n: nat)
    ensures
        pause_after_failures(1, n) == (if pow2(n) <= MAX_BACKOFF_SECS {
            pow2(n)
        } else {
            MAX_BACKOFF_SECS as nat
        }),
    decreases n,
{
    lemma2_to64();
    if n > 0 {
        law_backoff_doubles((n - 1) as nat);
        lemma_pow2_unfold(n);
    }
}

} // verus!
