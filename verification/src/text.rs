//! Text as sequences of characters: searching, trimming, numbers, columns.

use vstd::prelude::*;
use vstd::utf8::{encode_utf8, encode_utf8_decode_utf8};
use crate::unicode::white_space;

verus! {

/// The characters of a string.
pub fn chars_of(s: &str) -> (chars: Vec<char>)
    ensures
        chars@ == s@,
{
    let mut chars: Vec<char> = Vec::new();
    for c in it: s.chars()
        invariant
            chars@ == s@.take(it.index()),
            it.seq() == s@,
    {
        chars.push(c);
    }
    assert(s@.take(s@.len() as int) == s@);
    chars
}

/// Whether two strings hold the same characters.
pub fn same_text(a: &str, b: &str) -> (same: bool)
    ensures
        same == (a@ == b@),
{
    let x: &[u8] = a.as_bytes();
    let y: &[u8] = b.as_bytes();
    proof {
        encode_utf8_decode_utf8(a@);
        encode_utf8_decode_utf8(b@);
    }
    if x.len() != y.len() {
        return false;
    }
    let mut i: usize = 0;
    while i < x.len()
        invariant
            i <= x@.len(),
            x@.len() == y@.len(),
            forall|k: int| 0 <= k < i ==> x@[k] == y@[k],
            x@ == encode_utf8(a@),
            y@ == encode_utf8(b@),
        decreases x@.len() - i,
    {
        if x[i] != y[i] {
            return false;
        }
        i = i + 1;
    }
    assert(x@ =~= y@);
    true
}

/// `needle` stands in `hay` at position `i`.
pub open spec fn occurs_at(hay: Seq<char>, needle: Seq<char>, i: int) -> bool {
    0 <= i && i + needle.len() <= hay.len() && hay.subrange(i, i + needle.len()) == needle
}

/// `needle` stands somewhere in `hay`.
pub open spec fn occurs_in(hay: Seq<char>, needle: Seq<char>) -> bool {
    exists|i: int| occurs_at(hay, needle, i)
}

/// The first position from `i` on at which `needle` stands in `hay`.
pub open spec fn find_from(hay: Seq<char>, needle: Seq<char>, i: int) -> Option<int>
    decreases hay.len() + 1 - i,
{
    if i < 0 || i + needle.len() > hay.len() {
        None
    } else if occurs_at(hay, needle, i) {
        Some(i)
    } else {
        find_from(hay, needle, i + 1)
    }
}

/// The first position at which `needle` stands in `hay`.
pub open spec fn find(hay: Seq<char>, needle: Seq<char>) -> Option<int> {
    find_from(hay, needle, 0)
}

/// The last position of the character `c` in `hay`.
pub open spec fn rfind(hay: Seq<char>, c: char) -> Option<int>
    decreases hay.len(),
{
    if hay.len() == 0 {
        None
    } else if hay.last() == c {
        Some(hay.len() - 1)
    } else {
        rfind(hay.drop_last(), c)
    }
}

/// `find` gives the least position at which `needle` stands, if there is one.
pub proof fn law_find_is_first(hay: Seq<char>, needle: Seq<char>)
    ensures
        find(hay, needle) matches Some(i) ==> occurs_at(hay, needle, i),
        find(hay, needle) matches Some(i) ==> forall|j: int|
            j < i ==> !#[trigger] occurs_at(hay, needle, j),
        find(hay, needle) is None ==> forall|j: int| !#[trigger] occurs_at(hay, needle, j),
{
    lemma_find_from(hay, needle, 0);
}

proof fn lemma_find_from(hay: Seq<char>, needle: Seq<char>, i: int)
    requires
        0 <= i,
    ensures
        find_from(hay, needle, i) matches Some(r) ==> i <= r && occurs_at(hay, needle, r),
        find_from(hay, needle, i) matches Some(r) ==> forall|j: int|
            i <= j < r ==> !#[trigger] occurs_at(hay, needle, j),
        find_from(hay, needle, i) is None ==> forall|j: int|
            i <= j ==> !#[trigger] occurs_at(hay, needle, j),
    decreases hay.len() + 1 - i,
{
    if i + needle.len() <= hay.len() && !occurs_at(hay, needle, i) {
        lemma_find_from(hay, needle, i + 1);
    }
}

/// `rfind` gives the greatest position of the character, if it occurs.
pub proof fn law_rfind_is_last(hay: Seq<char>, c: char)
    ensures
        rfind(hay, c) matches Some(i) ==> 0 <= i < hay.len() && hay[i] == c,
        rfind(hay, c) matches Some(i) ==> forall|j: int|
            i < j < hay.len() ==> #[trigger] hay[j] != c,
        rfind(hay, c) is None ==> forall|j: int| 0 <= j < hay.len() ==> #[trigger] hay[j] != c,
    decreases hay.len(),
{
    if hay.len() > 0 && hay.last() != c {
        let rest = hay.drop_last();
        law_rfind_is_last(rest, c);
        assert(forall|j: int| 0 <= j < rest.len() ==> #[trigger] hay[j] == rest[j]);
    }
}

/// Whether `needle` stands in `hay` at position `i`.
fn occurs(hay: &Vec<char>, needle: &Vec<char>, i: usize) -> (found: bool)
    requires
        i + needle@.len() <= hay@.len(),
    ensures
        found == occurs_at(hay@, needle@, i as int),
{
    let len: usize = hay.len();
    let mut k: usize = 0;
    while k < needle.len()
        invariant
            k <= needle@.len(),
            i + needle@.len() <= hay@.len() == len,
            forall|j: int| 0 <= j < k ==> hay@[i + j] == needle@[j],
        decreases needle@.len() - k,
    {
        if hay[i + k] != needle[k] {
            assert(hay@.subrange(i as int, i + needle@.len())[k as int] == hay@[i + k]);
            return false;
        }
        k = k + 1;
    }
    assert(hay@.subrange(i as int, i + needle@.len()) =~= needle@);
    true
}

/// Looks for `needle` in `hay`, from position `from` on.
pub fn find_chars(hay: &Vec<char>, needle: &Vec<char>, from: usize) -> (at: Option<usize>)
    ensures
        at matches Some(i) ==> from <= i && i + needle@.len() <= hay@.len() && find_from(
            hay@,
            needle@,
            from as int,
        ) == Some(i as int),
        at is None ==> find_from(hay@, needle@, from as int) is None,
{
    let mut i: usize = from;
    while i <= hay.len() && needle.len() <= hay.len() - i
        invariant
            from <= i,
            find_from(hay@, needle@, from as int) == find_from(hay@, needle@, i as int),
        decreases hay@.len() + 1 - i,
    {
        if occurs(hay, needle, i) {
            return Some(i);
        }
        if i == hay.len() {
            assert(find_from(hay@, needle@, i + 1) is None);
            return None;
        }
        i = i + 1;
    }
    None
}

/// Looks for the last `c` in `hay`.
pub fn rfind_char(hay: &Vec<char>, c: char) -> (at: Option<usize>)
    ensures
        at matches Some(i) ==> i < hay@.len() && rfind(hay@, c) == Some(i as int),
        at is None ==> rfind(hay@, c) is None,
{
    let mut n: usize = hay.len();
    assert(hay@.take(n as int) =~= hay@);
    while n > 0
        invariant
            n <= hay@.len(),
            rfind(hay@, c) == rfind(hay@.take(n as int), c),
        decreases n,
    {
        if hay[n - 1] == c {
            return Some(n - 1);
        }
        assert(hay@.take(n as int).drop_last() =~= hay@.take(n - 1));
        n = n - 1;
    }
    None
}

/// Whether `needle` stands anywhere in `hay`.
pub fn contains_text(hay: &str, needle: &str) -> (found: bool)
    ensures
        found == occurs_in(hay@, needle@),
{
    let h: Vec<char> = chars_of(hay);
    let n: Vec<char> = chars_of(needle);
    let at: Option<usize> = find_chars(&h, &n, 0);
    proof {
        law_find_is_first(hay@, needle@);
    }
    at.is_some()
}

/// `s` without its leading white space.
pub open spec fn trim_start(s: Seq<char>) -> Seq<char>
    decreases s.len(),
{
    if s.len() > 0 && white_space(s[0]) {
        trim_start(s.drop_first())
    } else {
        s
    }
}

/// `s` without its trailing white space.
pub open spec fn trim_end(s: Seq<char>) -> Seq<char>
    decreases s.len(),
{
    if s.len() > 0 && white_space(s.last()) {
        trim_end(s.drop_last())
    } else {
        s
    }
}

/// `s` without the white space at either end.
pub open spec fn trim(s: Seq<char>) -> Seq<char> {
    trim_end(trim_start(s))
}

/// The position behind the leading white space of `chars[from..to]`.
pub fn skip_white(chars: &Vec<char>, from: usize, to: usize) -> (start: usize)
    requires
        from <= to <= chars@.len(),
    ensures
        from <= start <= to,
        chars@.subrange(start as int, to as int) == trim_start(
            chars@.subrange(from as int, to as int),
        ),
{
    let mut i: usize = from;
    while i < to && chars[i].is_whitespace()
        invariant
            from <= i <= to <= chars@.len(),
            trim_start(chars@.subrange(from as int, to as int)) == trim_start(
                chars@.subrange(i as int, to as int),
            ),
        decreases to - i,
    {
        assert(chars@.subrange(i as int, to as int).drop_first() =~= chars@.subrange(
            i + 1,
            to as int,
        ));
        i = i + 1;
    }
    i
}

/// The position before the trailing white space of `chars[from..to]`.
pub fn drop_white(chars: &Vec<char>, from: usize, to: usize) -> (end: usize)
    requires
        from <= to <= chars@.len(),
    ensures
        from <= end <= to,
        chars@.subrange(from as int, end as int) == trim_end(
            chars@.subrange(from as int, to as int),
        ),
{
    let mut i: usize = to;
    while from < i && chars[i - 1].is_whitespace()
        invariant
            from <= i <= to <= chars@.len(),
            trim_end(chars@.subrange(from as int, to as int)) == trim_end(
                chars@.subrange(from as int, i as int),
            ),
        decreases i,
    {
        assert(chars@.subrange(from as int, i as int).drop_last() =~= chars@.subrange(
            from as int,
            i - 1,
        ));
        i = i - 1;
    }
    i
}

/// The part of `chars[from..to]` between the white space at its ends.
pub fn trim_range(chars: &Vec<char>, from: usize, to: usize) -> (range: (usize, usize))
    requires
        from <= to <= chars@.len(),
    ensures
        from <= range.0 <= range.1 <= to,
        chars@.subrange(range.0 as int, range.1 as int) == trim(
            chars@.subrange(from as int, to as int),
        ),
{
    let start: usize = skip_white(chars, from, to);
    let end: usize = drop_white(chars, start, to);
    (start, end)
}

/// Trimming leaves nothing to trim: no white space at either end.
pub proof fn law_trim_ends(s: Seq<char>)
    ensures
        trim(s).len() > 0 ==> !white_space(trim(s)[0]) && !white_space(trim(s).last()),
        trim(trim(s)) == trim(s),
{
    lemma_trim_start(s);
    lemma_trim_end(trim_start(s));
}

proof fn lemma_trim_start(s: Seq<char>)
    ensures
        trim_start(s).len() > 0 ==> !white_space(trim_start(s)[0]),
    decreases s.len(),
{
    if s.len() > 0 && white_space(s[0]) {
        lemma_trim_start(s.drop_first());
    }
}

proof fn lemma_trim_end(s: Seq<char>)
    ensures
        trim_end(s).len() <= s.len(),
        trim_end(s) == s.take(trim_end(s).len() as int),
        trim_end(s).len() > 0 ==> !white_space(trim_end(s).last()),
    decreases s.len(),
{
    if s.len() > 0 && white_space(s.last()) {
        lemma_trim_end(s.drop_last());
        let n = trim_end(s).len() as int;
        assert(s.drop_last().take(n) =~= s.take(n));
    } else {
        assert(s.take(s.len() as int) =~= s);
    }
}

/// A decimal digit.
pub open spec fn is_digit(c: char) -> bool {
    '0' <= c <= '9'
}

/// The number that decimal digits stand for.
pub open spec fn digits_value(s: Seq<char>) -> nat
    decreases s.len(),
{
    if s.len() == 0 {
        0
    } else {
        10 * digits_value(s.drop_last()) + (s.last() as nat - '0' as nat) as nat
    }
}

/// The digits of an unsigned number behind its optional plus sign.
pub open spec fn unsigned_digits(s: Seq<char>) -> Seq<char> {
    if s.len() > 0 && s[0] == '+' {
        s.skip(1)
    } else {
        s
    }
}

/// The unsigned number that `s` spells: an optional plus sign, then one or
/// more decimal digits and nothing else, with a value of at most `max`.
pub open spec fn unsigned(s: Seq<char>, max: nat) -> Option<nat> {
    let digits = unsigned_digits(s);
    if digits.len() > 0 && (forall|i: int| 0 <= i < digits.len() ==> is_digit(#[trigger] digits[i]))
        && digits_value(digits) <= max {
        Some(digits_value(digits))
    } else {
        None
    }
}

proof fn lemma_digits_prefix(s: Seq<char>, k: int)
    requires
        0 <= k <= s.len(),
    ensures
        digits_value(s.take(k)) <= digits_value(s),
    decreases s.len(),
{
    if k < s.len() {
        lemma_digits_prefix(s.drop_last(), k);
        assert(s.drop_last().take(k) =~= s.take(k));
    } else {
        assert(s.take(k) =~= s);
    }
}

/// Reads `chars[from..to]` as an unsigned number of at most `max`.
pub fn parse_unsigned(chars: &Vec<char>, from: usize, to: usize, max: usize) -> (number: Option<
    usize,
>)
    requires
        from <= to <= chars@.len(),
    ensures
        number matches Some(n) ==> unsigned(chars@.subrange(from as int, to as int), max as nat)
            == Some(n as nat),
        number is None ==> unsigned(chars@.subrange(from as int, to as int), max as nat) is None,
{
    let ghost text = chars@.subrange(from as int, to as int);
    let start: usize = if from < to && chars[from] == '+' {
        from + 1
    } else {
        from
    };
    let ghost digits = chars@.subrange(start as int, to as int);
    assert(digits =~= unsigned_digits(text));
    if start == to {
        return None;
    }
    let mut value: usize = 0;
    let mut i: usize = start;
    while i < to
        invariant
            start <= i <= to <= chars@.len(),
            start < to,
            text == chars@.subrange(from as int, to as int),
            digits == chars@.subrange(start as int, to as int),
            digits == unsigned_digits(text),
            value <= max,
            value == digits_value(digits.take(i - start)),
            forall|k: int| 0 <= k < i - start ==> is_digit(#[trigger] digits[k]),
        decreases to - i,
    {
        let c: char = chars[i];
        let ghost k = i - start;
        assert(digits[k] == c);
        assert(digits.take(k + 1).drop_last() =~= digits.take(k));
        assert(digits.take(k + 1).last() == c);
        if c < '0' || '9' < c {
            return None;
        }
        let d: usize = (c as u32 - '0' as u32) as usize;
        if value > max / 10 || d > max - value * 10 {
            proof {
                lemma_digits_prefix(digits, k + 1);
            }
            return None;
        }
        value = value * 10 + d;
        i = i + 1;
    }
    assert(digits.take(to - start) =~= digits);
    Some(value)
}

/// The digit with the value `d`.
pub open spec fn digit(d: nat) -> char {
    ('0' as nat + d) as char
}

/// A number in decimal notation, without leading zeros.
pub open spec fn decimal(n: nat) -> Seq<char>
    decreases n,
{
    if n < 10 {
        seq![digit(n)]
    } else {
        decimal(n / 10).push(digit(n % 10))
    }
}

/// Appends a number in decimal notation.
pub fn push_decimal(out: &mut String, n: usize)
    ensures
        final(out)@ == old(out)@ + decimal(n as nat),
    decreases n,
{
    if n >= 10 {
        push_decimal(out, n / 10);
    }
    let d: char = (48 + (n % 10) as u8) as char;
    out.push(d);
}

/// Reading a number back from its decimal notation gives that number.
pub proof fn law_decimal_roundtrip(n: nat)
    ensures
        unsigned(decimal(n), n) == Some(n),
{
    lemma_decimal_digits(n);
    assert(is_digit(decimal(n)[0]));
}

/// The notation of a number is made of digits, at least one, that stand for it.
pub proof fn lemma_decimal_digits(n: nat)
    ensures
        decimal(n).len() > 0,
        forall|i: int| 0 <= i < decimal(n).len() ==> is_digit(#[trigger] decimal(n)[i]),
        digits_value(decimal(n)) == n,
    decreases n,
{
    reveal_with_fuel(digits_value, 2);
    if n < 10 {
        assert(decimal(n).drop_last() =~= Seq::<char>::empty());
    } else {
        lemma_decimal_digits(n / 10);
        assert(decimal(n).drop_last() =~= decimal(n / 10));
    }
}

/// `n` spaces.
pub open spec fn spaces(n: int) -> Seq<char> {
    Seq::new(
        if n > 0 {
            n as nat
        } else {
            0
        },
        |i: int| ' ',
    )
}

/// `s` filled up with spaces on the right to at least `width` characters.
pub open spec fn padded(s: Seq<char>, width: int) -> Seq<char> {
    s + spaces(width - s.len())
}

/// Appends `n` spaces.
pub fn push_spaces(out: &mut String, n: usize)
    ensures
        final(out)@ == old(out)@ + spaces(n as int),
{
    let ghost before = out@;
    let mut i: usize = 0;
    assert(out@ =~= before + spaces(0));
    while i < n
        invariant
            i <= n,
            out@ == before + spaces(i as int),
        decreases n - i,
    {
        out.push(' ');
        i = i + 1;
        assert(out@ =~= before + spaces(i as int));
    }
}

/// Appends `s`, filled up with spaces to at least `width` characters.
pub fn push_padded(out: &mut String, s: &str, width: usize)
    ensures
        final(out)@ == old(out)@ + padded(s@, width as int),
{
    let ghost before = out@;
    let len: usize = s.unicode_len();
    out.append(s);
    if len < width {
        push_spaces(out, width - len);
    }
    assert(out@ =~= before + padded(s@, width as int));
}

/// The wide characters of East Asian scripts: those whose East Asian Width is
/// wide in version 16 of the Unicode Character Database, without the marks.
pub open spec fn east_asian_wide(c: char) -> bool {
    let u = c as u32;
    ||| 0x1100 <= u <= 0x115F
    ||| 0x2E80 <= u <= 0x2E99
    ||| 0x2E9B <= u <= 0x2EF3
    ||| 0x2F00 <= u <= 0x2FD5
    ||| 0x2FF0 <= u <= 0x3029
    ||| 0x3030 <= u <= 0x303E
    ||| 0x3041 <= u <= 0x3096
    ||| 0x309B <= u <= 0x30FF
    ||| 0x3105 <= u <= 0x312F
    ||| 0x3131 <= u <= 0x318E
    ||| 0x3190 <= u <= 0x31E5
    ||| 0x31EF <= u <= 0x321E
    ||| 0x3220 <= u <= 0x3247
    ||| 0x3250 <= u <= 0xA48C
    ||| 0xA490 <= u <= 0xA4C6
    ||| 0xA960 <= u <= 0xA97C
    ||| 0xAC00 <= u <= 0xD7A3
    ||| 0xF900 <= u <= 0xFAFF
    ||| 0xFE10 <= u <= 0xFE19
    ||| 0xFE30 <= u <= 0xFE52
    ||| 0xFE54 <= u <= 0xFE66
    ||| 0xFE68 <= u <= 0xFE6B
    ||| 0x16FE0 <= u <= 0x16FE3
    ||| 0x17000 <= u <= 0x187F7
    ||| 0x18800 <= u <= 0x18CD5
    ||| 0x18CFF <= u <= 0x18D08
    ||| 0x1AFF0 <= u <= 0x1AFF3
    ||| 0x1AFF5 <= u <= 0x1AFFB
    ||| 0x1AFFD <= u <= 0x1AFFE
    ||| 0x1B000 <= u <= 0x1B122
    ||| u == 0x1B132
    ||| 0x1B150 <= u <= 0x1B152
    ||| u == 0x1B155
    ||| 0x1B164 <= u <= 0x1B167
    ||| 0x1B170 <= u <= 0x1B2FB
    ||| 0x1F200 <= u <= 0x1F202
    ||| 0x1F210 <= u <= 0x1F23B
    ||| 0x1F240 <= u <= 0x1F248
    ||| 0x1F250 <= u <= 0x1F251
    ||| 0x1F260 <= u <= 0x1F265
    ||| 0x20000 <= u <= 0x2FFFD
    ||| 0x30000 <= u <= 0x3FFFD
}

/// The fullwidth forms.
pub open spec fn fullwidth(c: char) -> bool {
    let u = c as u32;
    ||| 0xFF01 <= u <= 0xFF60
    ||| 0xFFE0 <= u <= 0xFFE6
}

/// The symbols whose East Asian Width is wide, most of them emoji. Others,
/// such as the letters that make up a flag, are as narrow as a letter.
pub open spec fn wide_symbol(c: char) -> bool {
    let u = c as u32;
    ||| 0x231A <= u <= 0x231B
    ||| 0x2329 <= u <= 0x232A
    ||| 0x23E9 <= u <= 0x23EC
    ||| u == 0x23F0
    ||| u == 0x23F3
    ||| 0x25FD <= u <= 0x25FE
    ||| 0x2614 <= u <= 0x2615
    ||| 0x2630 <= u <= 0x2637
    ||| 0x2648 <= u <= 0x2653
    ||| u == 0x267F
    ||| 0x268A <= u <= 0x268F
    ||| u == 0x2693
    ||| u == 0x26A1
    ||| 0x26AA <= u <= 0x26AB
    ||| 0x26BD <= u <= 0x26BE
    ||| 0x26C4 <= u <= 0x26C5
    ||| u == 0x26CE
    ||| u == 0x26D4
    ||| u == 0x26EA
    ||| 0x26F2 <= u <= 0x26F3
    ||| u == 0x26F5
    ||| u == 0x26FA
    ||| u == 0x26FD
    ||| u == 0x2705
    ||| 0x270A <= u <= 0x270B
    ||| u == 0x2728
    ||| u == 0x274C
    ||| u == 0x274E
    ||| 0x2753 <= u <= 0x2755
    ||| u == 0x2757
    ||| 0x2795 <= u <= 0x2797
    ||| u == 0x27B0
    ||| u == 0x27BF
    ||| 0x2B1B <= u <= 0x2B1C
    ||| u == 0x2B50
    ||| u == 0x2B55
    ||| 0x1D300 <= u <= 0x1D356
    ||| 0x1D360 <= u <= 0x1D376
    ||| u == 0x1F004
    ||| u == 0x1F0CF
    ||| u == 0x1F18E
    ||| 0x1F191 <= u <= 0x1F19A
    ||| 0x1F300 <= u <= 0x1F320
    ||| 0x1F32D <= u <= 0x1F335
    ||| 0x1F337 <= u <= 0x1F37C
    ||| 0x1F37E <= u <= 0x1F393
    ||| 0x1F3A0 <= u <= 0x1F3CA
    ||| 0x1F3CF <= u <= 0x1F3D3
    ||| 0x1F3E0 <= u <= 0x1F3F0
    ||| u == 0x1F3F4
    ||| 0x1F3F8 <= u <= 0x1F43E
    ||| u == 0x1F440
    ||| 0x1F442 <= u <= 0x1F4FC
    ||| 0x1F4FF <= u <= 0x1F53D
    ||| 0x1F54B <= u <= 0x1F54E
    ||| 0x1F550 <= u <= 0x1F567
    ||| u == 0x1F57A
    ||| 0x1F595 <= u <= 0x1F596
    ||| u == 0x1F5A4
    ||| 0x1F5FB <= u <= 0x1F64F
    ||| 0x1F680 <= u <= 0x1F6C5
    ||| u == 0x1F6CC
    ||| 0x1F6D0 <= u <= 0x1F6D2
    ||| 0x1F6D5 <= u <= 0x1F6D7
    ||| 0x1F6DC <= u <= 0x1F6DF
    ||| 0x1F6EB <= u <= 0x1F6EC
    ||| 0x1F6F4 <= u <= 0x1F6FC
    ||| 0x1F7E0 <= u <= 0x1F7EB
    ||| u == 0x1F7F0
    ||| 0x1F90C <= u <= 0x1F93A
    ||| 0x1F93C <= u <= 0x1F945
    ||| 0x1F947 <= u <= 0x1F9FF
    ||| 0x1FA70 <= u <= 0x1FA7C
    ||| 0x1FA80 <= u <= 0x1FA89
    ||| 0x1FA8F <= u <= 0x1FAC6
    ||| 0x1FACE <= u <= 0x1FADC
    ||| 0x1FADF <= u <= 0x1FAE9
    ||| 0x1FAF0 <= u <= 0x1FAF8
}

/// A character that takes two columns by itself.
pub open spec fn wide(c: char) -> bool {
    east_asian_wide(c) || fullwidth(c) || wide_symbol(c)
}

/// A character that takes no column: the marks for Latin, Greek, Cyrillic and
/// East Asian letters and for symbols, the later parts of a Hangul syllable,
/// joiners, and selectors of a variant.
pub open spec fn joins(c: char) -> bool {
    let u = c as u32;
    ||| 0x300 <= u <= 0x36F
    ||| 0x1160 <= u <= 0x11FF
    ||| 0x1AB0 <= u <= 0x1ACE
    ||| 0x1DC0 <= u <= 0x1DFF
    ||| 0x200B <= u <= 0x200F
    ||| 0x20D0 <= u <= 0x20F0
    ||| 0x2060 <= u <= 0x2064
    ||| 0x302A <= u <= 0x302F
    ||| 0x3099 <= u <= 0x309A
    ||| 0xD7B0 <= u <= 0xD7C6
    ||| 0xD7CB <= u <= 0xD7FB
    ||| 0xFE00 <= u <= 0xFE0E
    ||| 0xFE20 <= u <= 0xFE2F
    ||| u == 0xFEFF
    ||| u == 0x16FE4
    ||| 0x16FF0 <= u <= 0x16FF1
    ||| 0xE0020 <= u <= 0xE007F
    ||| 0xE0100 <= u <= 0xE01EF
}

/// The selector that turns the character before it into an emoji.
pub const EMOJI_SELECTOR: char = '\u{FE0F}';

/// How many columns a character takes: none if it joins the one before it,
/// two if it is wide, and one otherwise. Marks of other scripts and control
/// characters are counted as one.
pub open spec fn char_columns(c: char) -> nat {
    if joins(c) {
        0
    } else if wide(c) {
        2
    } else {
        1
    }
}

/// How many columns the last character of a text adds. An emoji is wide, so
/// the selector of emoji adds a column to a narrow character and none to a
/// wide one.
pub open spec fn last_columns(s: Seq<char>) -> nat {
    if s.last() == EMOJI_SELECTOR && s.len() > 1 && wide(s[s.len() - 2]) {
        0
    } else {
        char_columns(s.last())
    }
}

/// How many columns a text takes.
pub open spec fn text_columns(s: Seq<char>) -> nat
    decreases s.len(),
{
    if s.len() == 0 {
        0
    } else {
        text_columns(s.drop_last()) + last_columns(s)
    }
}

/// How many columns are kept for a text: one for each character, and more
/// where wide characters take more.
pub open spec fn text_room(s: Seq<char>) -> nat {
    if text_columns(s) <= s.len() {
        s.len()
    } else {
        text_columns(s)
    }
}

/// Whether a character takes two columns by itself.
fn is_wide(c: char) -> (yes: bool)
    ensures
        yes == wide(c),
{
    let u: u32 = c as u32;
    let east_asian: bool = (0x1100 <= u && u <= 0x115F)
        || (0x2E80 <= u && u <= 0x2E99)
        || (0x2E9B <= u && u <= 0x2EF3)
        || (0x2F00 <= u && u <= 0x2FD5)
        || (0x2FF0 <= u && u <= 0x3029)
        || (0x3030 <= u && u <= 0x303E)
        || (0x3041 <= u && u <= 0x3096)
        || (0x309B <= u && u <= 0x30FF)
        || (0x3105 <= u && u <= 0x312F)
        || (0x3131 <= u && u <= 0x318E)
        || (0x3190 <= u && u <= 0x31E5)
        || (0x31EF <= u && u <= 0x321E)
        || (0x3220 <= u && u <= 0x3247)
        || (0x3250 <= u && u <= 0xA48C)
        || (0xA490 <= u && u <= 0xA4C6)
        || (0xA960 <= u && u <= 0xA97C)
        || (0xAC00 <= u && u <= 0xD7A3)
        || (0xF900 <= u && u <= 0xFAFF)
        || (0xFE10 <= u && u <= 0xFE19)
        || (0xFE30 <= u && u <= 0xFE52)
        || (0xFE54 <= u && u <= 0xFE66)
        || (0xFE68 <= u && u <= 0xFE6B)
        || (0x16FE0 <= u && u <= 0x16FE3)
        || (0x17000 <= u && u <= 0x187F7)
        || (0x18800 <= u && u <= 0x18CD5)
        || (0x18CFF <= u && u <= 0x18D08)
        || (0x1AFF0 <= u && u <= 0x1AFF3)
        || (0x1AFF5 <= u && u <= 0x1AFFB)
        || (0x1AFFD <= u && u <= 0x1AFFE)
        || (0x1B000 <= u && u <= 0x1B122)
        || u == 0x1B132
        || (0x1B150 <= u && u <= 0x1B152)
        || u == 0x1B155
        || (0x1B164 <= u && u <= 0x1B167)
        || (0x1B170 <= u && u <= 0x1B2FB)
        || (0x1F200 <= u && u <= 0x1F202)
        || (0x1F210 <= u && u <= 0x1F23B)
        || (0x1F240 <= u && u <= 0x1F248)
        || (0x1F250 <= u && u <= 0x1F251)
        || (0x1F260 <= u && u <= 0x1F265)
        || (0x20000 <= u && u <= 0x2FFFD)
        || (0x30000 <= u && u <= 0x3FFFD);
    let full: bool = (0xFF01 <= u && u <= 0xFF60)
        || (0xFFE0 <= u && u <= 0xFFE6);
    let symbol: bool = (0x231A <= u && u <= 0x231B)
        || (0x2329 <= u && u <= 0x232A)
        || (0x23E9 <= u && u <= 0x23EC)
        || u == 0x23F0
        || u == 0x23F3
        || (0x25FD <= u && u <= 0x25FE)
        || (0x2614 <= u && u <= 0x2615)
        || (0x2630 <= u && u <= 0x2637)
        || (0x2648 <= u && u <= 0x2653)
        || u == 0x267F
        || (0x268A <= u && u <= 0x268F)
        || u == 0x2693
        || u == 0x26A1
        || (0x26AA <= u && u <= 0x26AB)
        || (0x26BD <= u && u <= 0x26BE)
        || (0x26C4 <= u && u <= 0x26C5)
        || u == 0x26CE
        || u == 0x26D4
        || u == 0x26EA
        || (0x26F2 <= u && u <= 0x26F3)
        || u == 0x26F5
        || u == 0x26FA
        || u == 0x26FD
        || u == 0x2705
        || (0x270A <= u && u <= 0x270B)
        || u == 0x2728
        || u == 0x274C
        || u == 0x274E
        || (0x2753 <= u && u <= 0x2755)
        || u == 0x2757
        || (0x2795 <= u && u <= 0x2797)
        || u == 0x27B0
        || u == 0x27BF
        || (0x2B1B <= u && u <= 0x2B1C)
        || u == 0x2B50
        || u == 0x2B55
        || (0x1D300 <= u && u <= 0x1D356)
        || (0x1D360 <= u && u <= 0x1D376)
        || u == 0x1F004
        || u == 0x1F0CF
        || u == 0x1F18E
        || (0x1F191 <= u && u <= 0x1F19A)
        || (0x1F300 <= u && u <= 0x1F320)
        || (0x1F32D <= u && u <= 0x1F335)
        || (0x1F337 <= u && u <= 0x1F37C)
        || (0x1F37E <= u && u <= 0x1F393)
        || (0x1F3A0 <= u && u <= 0x1F3CA)
        || (0x1F3CF <= u && u <= 0x1F3D3)
        || (0x1F3E0 <= u && u <= 0x1F3F0)
        || u == 0x1F3F4
        || (0x1F3F8 <= u && u <= 0x1F43E)
        || u == 0x1F440
        || (0x1F442 <= u && u <= 0x1F4FC)
        || (0x1F4FF <= u && u <= 0x1F53D)
        || (0x1F54B <= u && u <= 0x1F54E)
        || (0x1F550 <= u && u <= 0x1F567)
        || u == 0x1F57A
        || (0x1F595 <= u && u <= 0x1F596)
        || u == 0x1F5A4
        || (0x1F5FB <= u && u <= 0x1F64F)
        || (0x1F680 <= u && u <= 0x1F6C5)
        || u == 0x1F6CC
        || (0x1F6D0 <= u && u <= 0x1F6D2)
        || (0x1F6D5 <= u && u <= 0x1F6D7)
        || (0x1F6DC <= u && u <= 0x1F6DF)
        || (0x1F6EB <= u && u <= 0x1F6EC)
        || (0x1F6F4 <= u && u <= 0x1F6FC)
        || (0x1F7E0 <= u && u <= 0x1F7EB)
        || u == 0x1F7F0
        || (0x1F90C <= u && u <= 0x1F93A)
        || (0x1F93C <= u && u <= 0x1F945)
        || (0x1F947 <= u && u <= 0x1F9FF)
        || (0x1FA70 <= u && u <= 0x1FA7C)
        || (0x1FA80 <= u && u <= 0x1FA89)
        || (0x1FA8F <= u && u <= 0x1FAC6)
        || (0x1FACE <= u && u <= 0x1FADC)
        || (0x1FADF <= u && u <= 0x1FAE9)
        || (0x1FAF0 <= u && u <= 0x1FAF8);
    east_asian || full || symbol
}

/// Whether a character takes no column.
fn is_joining(c: char) -> (yes: bool)
    ensures
        yes == joins(c),
{
    let u: u32 = c as u32;
    (0x300 <= u && u <= 0x36F)
        || (0x1160 <= u && u <= 0x11FF)
        || (0x1AB0 <= u && u <= 0x1ACE)
        || (0x1DC0 <= u && u <= 0x1DFF)
        || (0x200B <= u && u <= 0x200F)
        || (0x20D0 <= u && u <= 0x20F0)
        || (0x2060 <= u && u <= 0x2064)
        || (0x302A <= u && u <= 0x302F)
        || (0x3099 <= u && u <= 0x309A)
        || (0xD7B0 <= u && u <= 0xD7C6)
        || (0xD7CB <= u && u <= 0xD7FB)
        || (0xFE00 <= u && u <= 0xFE0E)
        || (0xFE20 <= u && u <= 0xFE2F)
        || u == 0xFEFF
        || u == 0x16FE4
        || (0x16FF0 <= u && u <= 0x16FF1)
        || (0xE0020 <= u && u <= 0xE007F)
        || (0xE0100 <= u && u <= 0xE01EF)
}

/// How many columns a text takes.
pub fn columns(s: &str) -> (n: usize)
    ensures
        n == text_columns(s@),
{
    let chars: Vec<char> = chars_of(s);
    let bytes: usize = s.as_bytes().len();
    let mut n: usize = 0;
    let mut after_wide: bool = false;
    let mut i: usize = 0;
    while i < chars.len()
        invariant
            i <= chars@.len(),
            chars@ == s@,
            bytes == encode_utf8(s@).len(),
            n == text_columns(s@.take(i as int)),
            after_wide == (i > 0 && wide(s@[i - 1])),
        decreases chars@.len() - i,
    {
        let ghost seen = s@.take(i + 1);
        proof {
            assert(seen.drop_last() =~= s@.take(i as int));
            lemma_columns_fit_bytes(s@, i + 1);
        }
        let c: char = chars[i];
        let is_double: bool = is_wide(c);
        let adds: usize = if is_joining(c) || (c == EMOJI_SELECTOR && after_wide) {
            0
        } else if is_double {
            2
        } else {
            1
        };
        assert(adds == last_columns(seen));
        n = n + adds;
        after_wide = is_double;
        i = i + 1;
    }
    assert(s@.take(i as int) =~= s@);
    n
}

/// How many columns are kept for a text.
pub fn room(s: &str) -> (n: usize)
    ensures
        n == text_room(s@),
{
    let taken: usize = columns(s);
    let len: usize = s.unicode_len();
    if taken <= len {
        len
    } else {
        taken
    }
}

/// A wide character has at least three bytes, so a text has no more columns
/// than bytes.
proof fn lemma_columns_fit_bytes(s: Seq<char>, k: int)
    requires
        0 <= k <= s.len(),
    ensures
        text_columns(s.take(k)) <= encode_utf8(s).len(),
    decreases s.len(),
{
    if s.len() > 0 && k > 0 {
        let rest = s.drop_first();
        lemma_columns_fit_bytes(rest, k - 1);
        lemma_columns_first(s.take(k));
        assert(s.take(k).drop_first() =~= rest.take(k - 1));
    }
}

proof fn lemma_columns_first(s: Seq<char>)
    requires
        s.len() > 0,
    ensures
        text_columns(s) <= char_columns(s[0]) + text_columns(s.drop_first()),
    decreases s.len(),
{
    if s.len() > 1 {
        lemma_columns_first(s.drop_last());
        assert(s.drop_last().drop_first() =~= s.drop_first().drop_last());
        assert(last_columns(s) <= last_columns(s.drop_first()));
    } else {
        assert(s.drop_last() =~= Seq::<char>::empty());
        assert(s.drop_first() =~= Seq::<char>::empty());
    }
}

/// A text takes at most two columns for each of its characters; without wide
/// and joining characters it takes exactly one for each.
pub proof fn law_text_columns(s: Seq<char>)
    ensures
        text_columns(s) <= 2 * s.len(),
        (forall|i: int| 0 <= i < s.len() ==> char_columns(#[trigger] s[i]) == 1)
            ==> text_columns(s) == s.len(),
    decreases s.len(),
{
    if s.len() > 0 {
        let front = s.drop_last();
        law_text_columns(front);
        assert(forall|i: int| 0 <= i < front.len() ==> #[trigger] front[i] == s[i]);
        if s.len() > 1 && char_columns(s[s.len() - 2]) == 1 {
            assert(!wide(s[s.len() - 2]));
        }
    }
}

/// What is kept for a text is enough for it, and is one column for each
/// character wherever that is enough.
pub proof fn law_text_room(s: Seq<char>)
    ensures
        text_columns(s) <= text_room(s) <= 2 * s.len(),
        text_columns(s) <= s.len() ==> text_room(s) == s.len(),
{
    law_text_columns(s);
}

} // verus!
