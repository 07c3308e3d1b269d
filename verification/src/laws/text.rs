//! What the work on text promises.

use vstd::prelude::*;
use crate::text::{
    char_columns, columns, contains_text, decimal, digit, digits_value, find_chars, find_from,
    is_digit, law_rfind_is_last, law_text_columns, lemma_decimal_digits,
    occurs_at, padded, parse_unsigned, push_decimal, push_padded, push_spaces, rfind_char, room,
    text_columns, trim, trim_end, trim_range, trim_start, unsigned, unsigned_digits,
};
use crate::unicode::white_space;

verus! {

/// The characters of `part` stand in `text` from position `i` on.
pub open spec fn stands_at(text: Seq<char>, part: Seq<char>, i: int) -> bool {
    &&& 0 <= i <= text.len() - part.len()
    &&& forall|k: int| 0 <= k < part.len() ==> text[i + k] == #[trigger] part[k]
}

/// `i` is the first position from `from` on at which `part` stands.
pub open spec fn first_at(text: Seq<char>, part: Seq<char>, from: int, i: int) -> bool {
    &&& from <= i
    &&& stands_at(text, part, i)
    &&& forall|j: int| from <= j < i ==> !#[trigger] stands_at(text, part, j)
}

/// `part` stands nowhere from `from` on.
pub open spec fn absent(text: Seq<char>, part: Seq<char>, from: int) -> bool {
    forall|j: int| from <= j ==> !#[trigger] stands_at(text, part, j)
}

/// `inner` is all of `text` but the white space at its ends.
pub open spec fn is_trimmed(text: Seq<char>, inner: Seq<char>) -> bool {
    exists|a: int, b: int| #[trigger] trimmed_to(text, a, b) && inner == text.subrange(a, b)
}

/// Outside of `a` and `b` there is white space alone, and none just inside.
pub open spec fn trimmed_to(text: Seq<char>, a: int, b: int) -> bool {
    &&& 0 <= a <= b <= text.len()
    &&& forall|i: int| 0 <= i < a ==> white_space(#[trigger] text[i])
    &&& forall|i: int| b <= i < text.len() ==> white_space(#[trigger] text[i])
    &&& a < b ==> !white_space(text[a]) && !white_space(text[b - 1])
}

/// The number that a row of digits stands for.
pub open spec fn number_of(digits: Seq<char>) -> int
    decreases digits.len(),
{
    if digits.len() == 0 {
        0
    } else {
        number_of(digits.drop_last()) * 10 + (digits.last() as int - 48)
    }
}

/// A row of one or more decimal digits.
pub open spec fn all_digits(s: Seq<char>) -> bool {
    s.len() > 0 && forall|i: int| 0 <= i < s.len() ==> 48 <= (#[trigger] s[i]) as int <= 57
}

/// The text spells the number: digits, with or without a plus sign.
pub open spec fn spells(text: Seq<char>, n: int) -> bool {
    ||| all_digits(text) && number_of(text) == n
    ||| text.len() > 0 && text[0] == '+' && all_digits(text.skip(1)) && number_of(text.skip(1)) == n
}

pub(crate) proof fn lemma_stands(text: Seq<char>, part: Seq<char>, i: int)
    ensures
        stands_at(text, part, i) <==> occurs_at(text, part, i),
{
    if stands_at(text, part, i) {
        let found = text.subrange(i, i + part.len());
        assert forall|k: int| 0 <= k < part.len() implies found[k] == #[trigger] part[k] by {
            assert(text[i + k] == part[k]);
        }
        assert(found =~= part);
    }
    if occurs_at(text, part, i) {
        assert forall|k: int| 0 <= k < part.len() implies text[i + k] == #[trigger] part[k] by {
            assert(text.subrange(i, i + part.len())[k] == part[k]);
        }
    }
}

pub(crate) proof fn lemma_found(text: Seq<char>, part: Seq<char>, from: int)
    requires
        0 <= from,
    ensures
        find_from(text, part, from) matches Some(i) ==> first_at(text, part, from, i),
        find_from(text, part, from) is None ==> absent(text, part, from),
    decreases text.len() + 1 - from,
{
    lemma_stands(text, part, from);
    if from + part.len() <= text.len() && !occurs_at(text, part, from) {
        lemma_found(text, part, from + 1);
        assert forall|j: int| from <= j && j < from + 1 implies !#[trigger] stands_at(
            text,
            part,
            j,
        ) by {
            assert(j == from);
        }
    }
}

/// A search gives the first place from `from` on where the text stands, and
/// none only if there is none.
pub proof fn law_find(hay: &Vec<char>, needle: &Vec<char>, from: usize, at: Option<usize>)
    requires
        call_ensures(find_chars, (hay, needle, from), at),
    ensures
        at matches Some(i) ==> first_at(hay@, needle@, from as int, i as int),
        at is None ==> absent(hay@, needle@, from as int),
{
    lemma_found(hay@, needle@, from as int);
}

/// A search from the end gives the last place of a character.
pub proof fn law_rfind(hay: &Vec<char>, c: char, at: Option<usize>)
    requires
        call_ensures(rfind_char, (hay, c), at),
    ensures
        at matches Some(i) ==> i < hay@.len() && hay@[i as int] == c,
        at matches Some(i) ==> forall|j: int| i < j < hay@.len() ==> #[trigger] hay@[j] != c,
        at is None ==> forall|j: int| 0 <= j < hay@.len() ==> #[trigger] hay@[j] != c,
{
    law_rfind_is_last(hay@, c);
}

/// A text holds another if that stands anywhere in it.
pub proof fn law_contains(hay: &str, needle: &str, found: bool)
    requires
        call_ensures(contains_text, (hay, needle), found),
    ensures
        found <==> exists|i: int| stands_at(hay@, needle@, i),
{
    assert forall|i: int| occurs_at(hay@, needle@, i) == #[trigger] stands_at(hay@, needle@, i) by {
        lemma_stands(hay@, needle@, i);
    }
    if found {
        let i = choose|i: int| occurs_at(hay@, needle@, i);
        assert(stands_at(hay@, needle@, i));
    }
}

proof fn lemma_trim_start_cuts(s: Seq<char>)
    ensures
        ({
            let a = s.len() - trim_start(s).len();
            &&& 0 <= a <= s.len()
            &&& trim_start(s) == s.skip(a)
            &&& forall|i: int| 0 <= i < a ==> white_space(#[trigger] s[i])
            &&& a < s.len() ==> !white_space(s[a])
        }),
    decreases s.len(),
{
    if s.len() > 0 && white_space(s[0]) {
        let rest = s.drop_first();
        lemma_trim_start_cuts(rest);
        let a = s.len() - trim_start(s).len();
        assert(rest.skip(a - 1) =~= s.skip(a));
        assert forall|i: int| 0 <= i < a implies white_space(#[trigger] s[i]) by {
            if i > 0 {
                assert(rest[i - 1] == s[i]);
            }
        }
        if a < s.len() {
            assert(rest[a - 1] == s[a]);
        }
    } else {
        assert(s.skip(0) =~= s);
    }
}

proof fn lemma_trim_end_cuts(s: Seq<char>)
    ensures
        ({
            let b = trim_end(s).len() as int;
            &&& 0 <= b <= s.len()
            &&& trim_end(s) == s.take(b)
            &&& forall|i: int| b <= i < s.len() ==> white_space(#[trigger] s[i])
            &&& b > 0 ==> !white_space(s[b - 1])
        }),
    decreases s.len(),
{
    if s.len() > 0 && white_space(s.last()) {
        let rest = s.drop_last();
        lemma_trim_end_cuts(rest);
        let b = trim_end(s).len() as int;
        assert(rest.take(b) =~= s.take(b));
        assert forall|i: int| b <= i < s.len() implies white_space(#[trigger] s[i]) by {
            if i < rest.len() {
                assert(rest[i] == s[i]);
            }
        }
    } else {
        assert(s.take(s.len() as int) =~= s);
    }
}

/// Trimming takes the white space off both ends, and nothing else.
pub proof fn law_trim(s: Seq<char>)
    ensures
        is_trimmed(s, trim(s)),
{
    let start = trim_start(s);
    lemma_trim_start_cuts(s);
    lemma_trim_end_cuts(start);
    let a = s.len() - start.len();
    let b = a + trim(s).len();
    assert(trim(s) =~= s.subrange(a, b));
    assert forall|i: int| b <= i < s.len() implies white_space(#[trigger] s[i]) by {
        assert(start[i - a] == s[i]);
    }
    if a < b {
        assert(start[b - 1 - a] == s[b - 1]);
    }
    assert(trimmed_to(s, a, b));
}

/// There is just one way to trim a text.
pub proof fn law_trimmed_is_unique(text: Seq<char>, x: Seq<char>, y: Seq<char>)
    requires
        is_trimmed(text, x),
        is_trimmed(text, y),
    ensures
        x == y,
{
    let (a, b) = choose|a: int, b: int| #[trigger] trimmed_to(text, a, b) && x == text.subrange(a, b);
    let (c, d) = choose|c: int, d: int| #[trigger] trimmed_to(text, c, d) && y == text.subrange(c, d);
    if a < b && c < d {
        assert(!white_space(text[a]) && !white_space(text[c]));
        assert(!white_space(text[b - 1]) && !white_space(text[d - 1]));
        assert(a == c && b == d);
    } else if a < b {
        assert(!white_space(text[a]));
    } else if c < d {
        assert(!white_space(text[c]));
    }
    assert(x =~= y);
}

/// A text with no white space at its ends is trimmed already.
pub proof fn law_trimmed_already(text: Seq<char>)
    requires
        text.len() > 0 ==> !white_space(text[0]) && !white_space(text.last()),
    ensures
        is_trimmed(text, text),
        trim(text) == text,
{
    assert(text.subrange(0, text.len() as int) =~= text);
    assert(trimmed_to(text, 0, text.len() as int));
    law_trim(text);
    law_trimmed_is_unique(text, text, trim(text));
}

/// The range that is given back for a part of a text is that part, trimmed.
pub proof fn law_trim_range(chars: &Vec<char>, from: usize, to: usize, range: (usize, usize))
    requires
        from <= to <= chars@.len(),
        call_ensures(trim_range, (chars, from, to), range),
    ensures
        from <= range.0 <= range.1 <= to,
        is_trimmed(
            chars@.subrange(from as int, to as int),
            chars@.subrange(range.0 as int, range.1 as int),
        ),
{
    law_trim(chars@.subrange(from as int, to as int));
}

proof fn lemma_digits(s: Seq<char>)
    requires
        forall|i: int| 0 <= i < s.len() ==> is_digit(#[trigger] s[i]),
    ensures
        digits_value(s) == number_of(s),
    decreases s.len(),
{
    if s.len() > 0 {
        assert(is_digit(s[s.len() - 1]));
        lemma_digits(s.drop_last());
    }
}

/// A number is read exactly from its digits, with or without a plus sign, and
/// from nothing else; one above the bound is not read.
pub proof fn law_unsigned(text: Seq<char>, max: nat)
    ensures
        unsigned(text, max) matches Some(n) ==> n <= max && spells(text, n as int),
        unsigned(text, max) is None ==> forall|n: int| n <= max ==> !#[trigger] spells(text, n),
{
    let digits = unsigned_digits(text);
    if forall|i: int| 0 <= i < digits.len() ==> is_digit(#[trigger] digits[i]) {
        lemma_digits(digits);
    }
    assert forall|n: int| n <= max && unsigned(text, max) is None implies !#[trigger] spells(
        text,
        n,
    ) by {
        if all_digits(text) {
            assert(text[0] as int >= 48);
            assert(digits == text);
            lemma_digits(text);
        } else if text.len() > 0 && text[0] == '+' && all_digits(text.skip(1)) {
            lemma_digits(text.skip(1));
        }
    }
}

/// The same, of the function that reads numbers.
pub proof fn law_parse_unsigned(
    chars: &Vec<char>,
    from: usize,
    to: usize,
    max: usize,
    number: Option<usize>,
)
    requires
        from <= to <= chars@.len(),
        call_ensures(parse_unsigned, (chars, from, to, max), number),
    ensures
        number matches Some(n) ==> n <= max && spells(
            chars@.subrange(from as int, to as int),
            n as int,
        ),
        number is None ==> forall|n: int|
            n <= max ==> !#[trigger] spells(chars@.subrange(from as int, to as int), n),
{
    law_unsigned(chars@.subrange(from as int, to as int), max as nat);
}

/// The notation of a number: its digits, without leading zeros.
pub open spec fn is_notation(digits: Seq<char>, n: int) -> bool {
    all_digits(digits) && number_of(digits) == n && (digits.len() > 1 ==> digits[0] != '0')
}

/// A number is written with its digits, without leading zeros.
pub proof fn law_decimal(n: nat)
    ensures
        is_notation(decimal(n), n as int),
    decreases n,
{
    lemma_decimal_digits(n);
    lemma_digits(decimal(n));
    assert forall|i: int| 0 <= i < decimal(n).len() implies 48 <= (#[trigger] decimal(n)[i]) as int
        <= 57 by {
        assert(is_digit(decimal(n)[i]));
    }
    if n >= 10 {
        law_decimal(n / 10);
        assert(decimal(n)[0] == decimal(n / 10)[0]);
        if n < 100 {
            assert(decimal(n / 10) =~= seq![decimal(n / 10)[0]]);
            assert(number_of(decimal(n / 10)) == decimal(n / 10)[0] as int - 48) by {
                reveal_with_fuel(number_of, 2);
                assert(decimal(n / 10).drop_last() =~= Seq::<char>::empty());
            }
        } else {
            lemma_decimal_digits(n / 10 / 10);
            assert(decimal(n / 10) == decimal(n / 10 / 10).push(digit((n / 10) % 10)));
        }
    }
}

/// A number has one notation.
pub proof fn law_one_notation(a: Seq<char>, b: Seq<char>, n: int)
    requires
        is_notation(a, n),
        is_notation(b, n),
    ensures
        a == b,
    decreases a.len(),
{
    lemma_number_bounds(a);
    lemma_number_bounds(b);
    let x = a.drop_last();
    let y = b.drop_last();
    assert(48 <= a[a.len() - 1] as int <= 57 && 48 <= b[b.len() - 1] as int <= 57);
    assert(a.last() == b.last() && number_of(x) == number_of(y));
    if a.len() > 1 && b.len() > 1 {
        lemma_shorter(a);
        lemma_shorter(b);
        law_one_notation(x, y, number_of(x));
        assert(a =~= x.push(a.last()));
        assert(b =~= y.push(b.last()));
    } else if a.len() > 1 {
        lemma_shorter(a);
        lemma_number_bounds(x);
        assert(y =~= Seq::<char>::empty());
    } else if b.len() > 1 {
        lemma_shorter(b);
        lemma_number_bounds(y);
        assert(x =~= Seq::<char>::empty());
    } else {
        assert(a =~= b);
    }
}

proof fn lemma_number_bounds(s: Seq<char>)
    requires
        all_digits(s),
    ensures
        number_of(s) >= 0,
        s[0] != '0' ==> number_of(s) > 0,
    decreases s.len(),
{
    assert(48 <= s[s.len() - 1] as int <= 57);
    if s.len() > 1 {
        lemma_shorter(s);
        lemma_number_bounds(s.drop_last());
    } else {
        assert(s.drop_last() =~= Seq::<char>::empty());
        assert(number_of(s.drop_last()) == 0);
    }
}

proof fn lemma_shorter(s: Seq<char>)
    requires
        all_digits(s),
        s.len() > 1,
    ensures
        all_digits(s.drop_last()),
        s.drop_last()[0] == s[0],
{
    let front = s.drop_last();
    assert forall|i: int| 0 <= i < front.len() implies 48 <= (#[trigger] front[i]) as int <= 57 by {
        assert(front[i] == s[i]);
    }
}

/// The same, of the function that appends numbers.
pub proof fn law_push_decimal(out: &mut String, n: usize, done: ())
    requires
        call_ensures(push_decimal, (out, n), done),
    ensures
        exists|digits: Seq<char>|
            is_notation(digits, n as int) && final(out)@ == #[trigger] (old(out)@ + digits),
{
    law_decimal(n as nat);
    assert(final(out)@ == old(out)@ + decimal(n as nat));
}

/// The text, with spaces behind it up to a width.
pub open spec fn is_filled(text: Seq<char>, width: int, filled: Seq<char>) -> bool {
    &&& filled.len() == (if text.len() >= width {
        text.len() as int
    } else {
        width
    })
    &&& forall|i: int| 0 <= i < text.len() ==> #[trigger] filled[i] == text[i]
    &&& forall|i: int| text.len() <= i < filled.len() ==> #[trigger] filled[i] == ' '
}

/// A text that is padded keeps its characters, and gets spaces behind them as
/// far as they are missing to the width.
pub proof fn law_push_padded(out: &mut String, s: &str, width: usize, done: ())
    requires
        call_ensures(push_padded, (out, s, width), done),
    ensures
        final(out)@.len() >= old(out)@.len(),
        final(out)@.take(old(out)@.len() as int) == old(out)@,
        is_filled(s@, width as int, final(out)@.skip(old(out)@.len() as int)),
{
    let n = old(out)@.len() as int;
    assert(final(out)@.take(n) =~= old(out)@);
    assert(final(out)@.skip(n) =~= padded(s@, width as int));
}

/// So many spaces are appended as were asked for, and nothing else.
pub proof fn law_push_spaces(out: &mut String, n: usize, done: ())
    requires
        call_ensures(push_spaces, (out, n), done),
    ensures
        final(out)@.len() == old(out)@.len() + n,
        final(out)@.take(old(out)@.len() as int) == old(out)@,
        forall|i: int| old(out)@.len() <= i < final(out)@.len() ==> #[trigger] final(out)@[i] == ' ',
{
    assert(final(out)@.take(old(out)@.len() as int) =~= old(out)@);
}

/// The room for a text is a column for each character, or what the text takes
/// if that is more.
pub proof fn law_room(s: &str, kept: usize, taken: usize)
    requires
        call_ensures(room, (s,), kept),
        call_ensures(columns, (s,), taken),
    ensures
        kept >= s@.len() && kept >= taken,
        kept == s@.len() || kept == taken,
{
}

/// A text of printable ASCII or of other Latin letters takes a column for
/// each character.
pub proof fn law_narrow_text(s: &str, taken: usize)
    requires
        forall|i: int|
            0 <= i < s@.len() ==> 0x20 <= (#[trigger] s@[i]) as u32 <= 0x7E || 0xA0 <= s@[i] as u32
                <= 0x24F,
        call_ensures(columns, (s,), taken),
    ensures
        taken == s@.len(),
{
    assert forall|i: int| 0 <= i < s@.len() implies char_columns(#[trigger] s@[i]) == 1 by {}
    law_text_columns(s@);
}

/// An ideograph, a kana, a Hangul syllable, a fullwidth form, or one of the
/// faces among the emoji.
pub open spec fn is_broad(c: char) -> bool {
    let u = c as u32;
    ||| 0x3041 <= u <= 0x3096
    ||| 0x30A1 <= u <= 0x30FA
    ||| 0x3400 <= u <= 0x4DBF
    ||| 0x4E00 <= u <= 0x9FFF
    ||| 0xAC00 <= u <= 0xD7A3
    ||| 0xFF01 <= u <= 0xFF60
    ||| 0x1F600 <= u <= 0x1F64F
    ||| 0x20000 <= u <= 0x2FFFD
}

proof fn lemma_all_wide(s: Seq<char>)
    requires
        forall|i: int| 0 <= i < s.len() ==> is_broad(#[trigger] s[i]),
    ensures
        text_columns(s) == 2 * s.len(),
    decreases s.len(),
{
    if s.len() > 0 {
        let front = s.drop_last();
        assert(forall|i: int| 0 <= i < front.len() ==> #[trigger] front[i] == s[i]);
        lemma_all_wide(front);
        assert(is_broad(s[s.len() - 1]));
        assert(char_columns(s.last()) == 2);
    }
}

/// A text of such characters takes two columns for each.
pub proof fn law_wide_text(s: &str, taken: usize)
    requires
        forall|i: int| 0 <= i < s@.len() ==> is_broad(#[trigger] s@[i]),
        call_ensures(columns, (s,), taken),
    ensures
        taken == 2 * s@.len(),
{
    lemma_all_wide(s@);
}

/// A mark on the last letter takes no column of its own: the combining marks,
/// and the voicing marks of kana.
pub proof fn law_marks(s: &str, marked: &str, mark: char, before: usize, after: usize)
    requires
        0x300 <= mark as u32 <= 0x36F || 0x3099 <= mark as u32 <= 0x309A,
        marked@ == s@.push(mark),
        call_ensures(columns, (s,), before),
        call_ensures(columns, (marked,), after),
    ensures
        after == before,
{
    assert(marked@.drop_last() =~= s@);
}

/// The selector of emoji makes one character two columns wide, whether it was
/// narrow or wide before.
pub proof fn law_emoji_selector(s: &str, base: char, taken: usize)
    requires
        0x20 <= base as u32 <= 0x7E || is_broad(base),
        s@ == seq![base, '\u{FE0F}'],
        call_ensures(columns, (s,), taken),
    ensures
        taken == 2,
{
    reveal_with_fuel(text_columns, 3);
    assert(s@.drop_last() =~= seq![base]);
    assert(seq![base].drop_last() =~= Seq::<char>::empty());
}

} // verus!
