//! What the station table and the search in it promise.

use vstd::prelude::*;
use vstd::utf8::is_ascii_chars;
use crate::laws::player::{
    is_nth, law_listed_categories, law_members_are_counted, lists_categories, named_before,
};
use crate::laws::text::{lemma_stands, stands_at};
use crate::search::{
    best_match, fuzzy_match, holds, law_best_match, lowered, lowered_ascii, match_station, position,
};
use crate::station::{
    categories, count_members, list_categories, list_members, members, station_table,
    stations, texts, Station, STATIONS,
};
use crate::text::occurs_at;
use crate::unicode::{ascii_lower, lower_text, lowercase};

verus! {

/// The built-in stations are the rows of the table, in their order, with the
/// columns name, address, category, description and quality.
pub proof fn law_stations(list: Vec<Station>)
    requires
        call_ensures(stations, (), list),
    ensures
        list@.len() == STATIONS@.len(),
        forall|i: int|
            0 <= i < list@.len() ==> (#[trigger] list@[i]).name == STATIONS@[i]@[0] && list@[i].url
                == STATIONS@[i]@[1] && list@[i].category == STATIONS@[i]@[2] && list@[i].desc
                == STATIONS@[i]@[3] && list@[i].quality == STATIONS@[i]@[4],
{
}

/// The list of categories names each once, in the order in which the stations
/// first name them.
pub proof fn law_list_categories(table: &Vec<Station>, list: Vec<&'static str>)
    requires
        table@.len() <= usize::MAX,
        call_ensures(list_categories, (table,), list),
    ensures
        lists_categories(table@, list@),
{
    law_listed_categories(table@, list@);
}

/// The members of a category are all of its stations, in the order of the
/// table: the `k`-th on the list is the `k`-th of the category.
pub proof fn law_list_members(table: &Vec<Station>, category: &str, list: Vec<usize>)
    requires
        table@.len() <= usize::MAX,
        call_ensures(list_members, (table, category), list),
    ensures
        list@.len() == named_before(table@, category@, table@.len() as int),
        forall|k: int|
            0 <= k < list@.len() ==> is_nth(table@, category@, k, #[trigger] list@[k] as int),
{
    law_members_are_counted(table@, category@);
}

/// Each category is counted with all of its stations.
pub proof fn law_count_members(
    table: &Vec<Station>,
    names: &Vec<&'static str>,
    counts: Vec<usize>,
)
    requires
        table@.len() <= usize::MAX,
        call_ensures(count_members, (table, names), counts),
    ensures
        counts@.len() == names@.len(),
        forall|k: int|
            0 <= k < names@.len() ==> #[trigger] counts@[k] == named_before(
                table@,
                names@[k]@,
                table@.len() as int,
            ),
{
    assert forall|k: int| 0 <= k < names@.len() implies #[trigger] counts@[k] == named_before(
        table@,
        names@[k]@,
        table@.len() as int,
    ) by {
        law_members_are_counted(table@, names@[k]@);
    }
}

/// A letter of ASCII without its case.
pub open spec fn folded(c: char) -> int {
    if 65 <= c as int <= 90 {
        c as int + 32
    } else {
        c as int
    }
}

/// `part` stands in `text` from `i` on, but for the case of letters.
pub open spec fn alike_at(text: Seq<char>, part: Seq<char>, i: int) -> bool {
    &&& 0 <= i <= text.len() - part.len()
    &&& forall|k: int|
        0 <= k < part.len() ==> folded(text[i + k]) == folded(#[trigger] part[k])
}

/// The two are the same text, but for the case of letters.
pub open spec fn alike(a: Seq<char>, b: Seq<char>) -> bool {
    a.len() == b.len() && alike_at(a, b, 0)
}

/// `part` stands somewhere in `text`, but for the case of letters.
pub open spec fn holds_alike(text: Seq<char>, part: Seq<char>) -> bool {
    exists|i: int| alike_at(text, part, i)
}

/// The query means the station at this position, whatever its case: the first
/// whose name it is, or failing that the first whose name it is a part of. It
/// means none only if it is not a part of any name.
pub open spec fn means(names: Seq<Seq<char>>, query: Seq<char>, at: Option<usize>) -> bool {
    match at {
        Some(i) => {
            &&& i < names.len()
            &&& (exists|k: int| 0 <= k < names.len() && alike(#[trigger] names[k], query)) ==> alike(
                names[i as int],
                query,
            ) && forall|j: int| 0 <= j < i ==> !alike(#[trigger] names[j], query)
            &&& !(exists|k: int| 0 <= k < names.len() && alike(#[trigger] names[k], query))
                ==> holds_alike(names[i as int], query) && forall|j: int|
                0 <= j < i ==> !holds_alike(#[trigger] names[j], query)
        },
        None => forall|k: int| 0 <= k < names.len() ==> !holds_alike(#[trigger] names[k], query),
    }
}

proof fn lemma_folded(c: char, d: char)
    ensures
        folded(c) == folded(d) <==> ascii_lower(c) == ascii_lower(d),
{
}

proof fn lemma_alike_at(text: Seq<char>, part: Seq<char>, i: int)
    ensures
        alike_at(text, part, i) <==> occurs_at(lower_text(text), lower_text(part), i),
{
    let low = lower_text(text);
    let piece = lower_text(part);
    if alike_at(text, part, i) {
        let found = low.subrange(i, i + piece.len());
        assert forall|k: int| 0 <= k < piece.len() implies #[trigger] found[k] == piece[k] by {
            assert(folded(text[i + k]) == folded(part[k]));
            lemma_folded(text[i + k], part[k]);
        }
        assert(found =~= piece);
    }
    if occurs_at(low, piece, i) {
        assert forall|k: int| 0 <= k < part.len() implies folded(text[i + k]) == folded(
            #[trigger] part[k],
        ) by {
            assert(low.subrange(i, i + piece.len())[k] == piece[k]);
            lemma_folded(text[i + k], part[k]);
        }
    }
}

proof fn lemma_alike(a: Seq<char>, b: Seq<char>)
    ensures
        alike(a, b) <==> lower_text(a) == lower_text(b),
        holds_alike(a, b) <==> holds(lower_text(a), lower_text(b)),
{
    lemma_alike_at(a, b, 0);
    assert(lower_text(a).len() == a.len() && lower_text(b).len() == b.len());
    assert(lower_text(a).subrange(0, a.len() as int) =~= lower_text(a));
    if holds_alike(a, b) {
        let i = choose|i: int| alike_at(a, b, i);
        lemma_alike_at(a, b, i);
    }
    if holds(lower_text(a), lower_text(b)) {
        let i = choose|i: int| occurs_at(lower_text(a), lower_text(b), i);
        lemma_alike_at(a, b, i);
    }
}

proof fn lemma_means(names: Seq<Seq<char>>, low: Seq<Seq<char>>, query: Seq<char>, at: Option<usize>)
    requires
        low.len() == names.len(),
        forall|k: int| 0 <= k < names.len() ==> #[trigger] low[k] == lower_text(names[k]),
        position(at) == best_match(low, lower_text(query)),
    ensures
        means(names, query, at),
{
    let q = lower_text(query);
    law_best_match(low, q);
    assert forall|k: int| 0 <= k < names.len() implies alike(#[trigger] names[k], query) == (low[k]
        == q) && holds_alike(names[k], query) == holds(low[k], q) by {
        lemma_alike(names[k], query);
    }
    match at {
        Some(i) => {
            assert(low[i as int] == lower_text(names[i as int]));
            if exists|k: int| 0 <= k < names.len() && alike(#[trigger] names[k], query) {
                let k = choose|k: int| 0 <= k < names.len() && alike(#[trigger] names[k], query);
                assert(low[k] == q);
                assert forall|j: int| 0 <= j < i implies !alike(#[trigger] names[j], query) by {
                    assert(low[j] != q);
                }
            } else {
                assert(!alike(names[i as int], query));
                assert forall|j: int| 0 <= j < i implies !holds_alike(
                    #[trigger] names[j],
                    query,
                ) by {
                    assert(!holds(low[j], q));
                }
            }
        },
        None => {
            assert forall|k: int| 0 <= k < names.len() implies !holds_alike(
                #[trigger] names[k],
                query,
            ) by {
                assert(!holds(low[k], q));
            }
        },
    }
}

/// The query means the text at this position: the first that it is, or failing
/// that the first that it is a part of. It means none only if it is not a part
/// of any.
pub open spec fn means_exactly(texts: Seq<Seq<char>>, query: Seq<char>, at: Option<usize>) -> bool {
    match at {
        Some(i) => {
            &&& i < texts.len()
            &&& texts.contains(query) ==> texts[i as int] == query && forall|j: int|
                0 <= j < i ==> #[trigger] texts[j] != query
            &&& !texts.contains(query) ==> part_of(texts[i as int], query) && forall|j: int|
                0 <= j < i ==> !part_of(#[trigger] texts[j], query)
        },
        None => forall|k: int| 0 <= k < texts.len() ==> !part_of(#[trigger] texts[k], query),
    }
}

/// `part` stands somewhere in `text`.
pub open spec fn part_of(text: Seq<char>, part: Seq<char>) -> bool {
    exists|i: int| stands_at(text, part, i)
}

proof fn lemma_part_of(text: Seq<char>, part: Seq<char>)
    ensures
        part_of(text, part) <==> holds(text, part),
{
    if part_of(text, part) {
        let i = choose|i: int| stands_at(text, part, i);
        lemma_stands(text, part, i);
    }
    if holds(text, part) {
        let i = choose|i: int| occurs_at(text, part, i);
        lemma_stands(text, part, i);
    }
}

proof fn lemma_means_exactly(texts: Seq<Seq<char>>, query: Seq<char>, at: Option<usize>)
    requires
        position(at) == best_match(texts, query),
    ensures
        means_exactly(texts, query, at),
{
    law_best_match(texts, query);
    assert forall|k: int| 0 <= k < texts.len() implies part_of(#[trigger] texts[k], query) == holds(
        texts[k],
        query,
    ) by {
        lemma_part_of(texts[k], query);
    }
    if texts.contains(query) {
        let k = choose|k: int| 0 <= k < texts.len() && texts[k] == query;
        assert(texts[k] == query);
        lemma_part_of(query, query);
        assert(occurs_at(query, query, 0)) by {
            assert(query.subrange(0, query.len() as int) =~= query);
        }
        assert(holds(texts[k], query));
    }
}

/// Names and queries of any kind are compared in lowercase, as the standard
/// library maps them.
pub proof fn law_match_in_lowercase(
    table: &Vec<Station>,
    query: &str,
    names: Seq<Seq<char>>,
    at: Option<usize>,
)
    requires
        names.len() == table@.len(),
        forall|k: int| 0 <= k < names.len() ==> #[trigger] names[k] == lowercase(table@[k].name@),
        call_ensures(match_station, (table, query), at),
    ensures
        means_exactly(names, lowercase(query@), at),
{
    assert(names =~= lowered(table@));
    lemma_means_exactly(names, lowercase(query@), at);
}

/// The built-in stations are searched as any others.
pub proof fn law_fuzzy_is_match(
    query: &str,
    table: Vec<Station>,
    built_in: Option<usize>,
    in_table: Option<usize>,
)
    requires
        call_ensures(stations, (), table),
        call_ensures(match_station, (&table, query), in_table),
        call_ensures(fuzzy_match, (query,), built_in),
    ensures
        built_in == in_table,
{
    assert(position(built_in) == position(in_table));
}

/// A station is found by its name or a part of it, whatever the case, for any
/// names and queries of ASCII.
pub proof fn law_match_station(
    table: &Vec<Station>,
    query: &str,
    names: Seq<Seq<char>>,
    at: Option<usize>,
)
    requires
        names.len() == table@.len(),
        forall|k: int| 0 <= k < names.len() ==> #[trigger] names[k] == table@[k].name@,
        forall|k: int| 0 <= k < names.len() ==> is_ascii_chars(#[trigger] names[k]),
        is_ascii_chars(query@),
        call_ensures(match_station, (table, query), at),
    ensures
        means(names, query@, at),
{
    assert forall|i: int| 0 <= i < table@.len() implies is_ascii_chars(
        (#[trigger] table@[i]).name@,
    ) by {
        assert(names[i] == table@[i].name@);
    }
    lemma_means(names, lowered_ascii(table@), query@, at);
}

/// A built-in station is found by its name or a part of it, whatever the case.
pub proof fn law_fuzzy_match(query: &str, at: Option<usize>)
    requires
        is_ascii_chars(query@),
        call_ensures(fuzzy_match, (query,), at),
    ensures
        means(Seq::new(STATIONS@.len(), |i: int| STATIONS@[i]@[0]@), query@, at),
{
    let names = Seq::new(STATIONS@.len(), |i: int| STATIONS@[i]@[0]@);
    lemma_means(names, lowered_ascii(station_table()), query@, at);
}

} // verus!
