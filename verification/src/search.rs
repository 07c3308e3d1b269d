//! Finding a station by its name.

use vstd::prelude::*;
use vstd::utf8::is_ascii_chars;
use crate::station::{station_table, stations, Station};
use crate::text::{contains_text, occurs_at, same_text};
use crate::unicode::{ascii_lower, lower_text, lowercase, to_lowercase, upper_text};

verus! {

/// `part` stands somewhere in `text`.
pub open spec fn holds(text: Seq<char>, part: Seq<char>) -> bool {
    exists|i: int| occurs_at(text, part, i)
}

/// The first position from `i` on whose name is the query.
pub open spec fn first_equal(names: Seq<Seq<char>>, query: Seq<char>, i: int) -> Option<int>
    decreases names.len() - i,
{
    if i < 0 || i >= names.len() {
        None
    } else if names[i] == query {
        Some(i)
    } else {
        first_equal(names, query, i + 1)
    }
}

/// The first position from `i` on whose name holds the query.
pub open spec fn first_holding(names: Seq<Seq<char>>, query: Seq<char>, i: int) -> Option<int>
    decreases names.len() - i,
{
    if i < 0 || i >= names.len() {
        None
    } else if holds(names[i], query) {
        Some(i)
    } else {
        first_holding(names, query, i + 1)
    }
}

/// The position of the name that a query means: the first that is the query,
/// or failing that the first that holds it.
pub open spec fn best_match(names: Seq<Seq<char>>, query: Seq<char>) -> Option<int> {
    match first_equal(names, query, 0) {
        Some(i) => Some(i),
        None => first_holding(names, query, 0),
    }
}

/// A position as a number.
pub open spec fn position(at: Option<usize>) -> Option<int> {
    match at {
        Some(i) => Some(i as int),
        None => None,
    }
}

/// The characters of each of some strings.
pub open spec fn contents(list: Seq<String>) -> Seq<Seq<char>> {
    list.map_values(|s: String| s@)
}

/// The names of some stations in lowercase.
pub open spec fn lowered(stations: Seq<Station>) -> Seq<Seq<char>> {
    stations.map_values(|s: Station| lowercase(s.name@))
}

/// The names of some stations with ASCII names in lowercase.
pub open spec fn lowered_ascii(stations: Seq<Station>) -> Seq<Seq<char>> {
    stations.map_values(|s: Station| lower_text(s.name@))
}

/// The name among `names` that `query` means, both in the same case.
pub fn match_name(names: &Vec<String>, query: &str) -> (at: Option<usize>)
    ensures
        position(at) == best_match(contents(names@), query@),
{
    let ghost texts = contents(names@);
    let mut i: usize = 0;
    while i < names.len()
        invariant
            i <= names@.len(),
            texts == contents(names@),
            first_equal(texts, query@, 0) == first_equal(texts, query@, i as int),
        decreases names@.len() - i,
    {
        if same_text(names[i].as_str(), query) {
            return Some(i);
        }
        i = i + 1;
    }
    i = 0;
    while i < names.len()
        invariant
            i <= names@.len(),
            texts == contents(names@),
            first_equal(texts, query@, 0) is None,
            first_holding(texts, query@, 0) == first_holding(texts, query@, i as int),
        decreases names@.len() - i,
    {
        if contains_text(names[i].as_str(), query) {
            return Some(i);
        }
        i = i + 1;
    }
    None
}

/// The station among `stations` that `query` means, whatever the case.
pub fn match_station(stations: &Vec<Station>, query: &str) -> (at: Option<usize>)
    ensures
        position(at) == best_match(lowered(stations@), lowercase(query@)),
        position(at) == best_match(lowered(stations@), lowercase(lower_text(query@))),
        is_ascii_chars(query@) && (forall|i: int|
            0 <= i < stations@.len() ==> is_ascii_chars((#[trigger] stations@[i]).name@))
            ==> position(at) == best_match(lowered_ascii(stations@), lower_text(query@)),
{
    let lower_query: String = to_lowercase(query);
    let mut names: Vec<String> = Vec::new();
    let mut i: usize = 0;
    while i < stations.len()
        invariant
            i <= stations@.len(),
            names@.len() == i,
            forall|k: int|
                0 <= k < i ==> (#[trigger] names@[k])@ == lowercase(stations@[k].name@),
            forall|k: int|
                0 <= k < i && is_ascii_chars(stations@[k].name@) ==> (#[trigger] names@[k])@
                    == lower_text(stations@[k].name@),
        decreases stations@.len() - i,
    {
        names.push(to_lowercase(stations[i].name));
        i = i + 1;
    }
    proof {
        assert(contents(names@) =~= lowered(stations@));
        if forall|k: int| 0 <= k < stations@.len() ==> is_ascii_chars(
            (#[trigger] stations@[k]).name@,
        ) {
            assert forall|k: int| 0 <= k < stations@.len() implies #[trigger] contents(names@)[k]
                == lowered_ascii(stations@)[k] by {
                assert(is_ascii_chars(stations@[k].name@));
                assert(names@[k]@ == lower_text(stations@[k].name@));
            }
            assert(contents(names@) =~= lowered_ascii(stations@));
        }
    }
    match_name(&names, lower_query.as_str())
}

/// The built-in station that a query means, whatever the case: the one with
/// that name, or the first whose name holds the query.
pub fn fuzzy_match(query: &str) -> (at: Option<usize>)
    ensures
        position(at) == best_match(lowered(station_table()), lowercase(query@)),
        position(at) == best_match(lowered(station_table()), lowercase(lower_text(query@))),
        is_ascii_chars(query@) ==> position(at) == best_match(
            lowered_ascii(station_table()),
            lower_text(query@),
        ),
        at matches Some(i) ==> i < station_table().len(),
{
    let list: Vec<Station> = stations();
    let at: Option<usize> = match_station(&list, query);
    proof {
        lemma_built_in_names();
        law_best_match(lowered(station_table()), lowercase(query@));
    }
    at
}

/// The characters of the built-in names, as far as the proofs below need them:
/// all are ASCII, and no two names agree in lowercase. Names are told apart by
/// their length and their first 32 characters.
proof fn lemma_built_in_names()
    ensures
        forall|i: int|
            0 <= i < station_table().len() ==> is_ascii_chars(
                (#[trigger] station_table()[i]).name@,
            ),
        lowered_ascii(station_table()).no_duplicates(),
{
    reveal_strlit("BBC 6 Music");
    reveal_strlit("FIP");
    reveal_strlit("FIP Rock");
    reveal_strlit("FIP Jazz");
    reveal_strlit("FIP Groove");
    reveal_strlit("FIP Pop");
    reveal_strlit("FIP Electro");
    reveal_strlit("FIP Monde");
    reveal_strlit("FIP Reggae");
    reveal_strlit("FIP Nouveautes");
    reveal_strlit("FIP Metal");
    reveal_strlit("France Musique");
    reveal_strlit("KALX");
    reveal_strlit("KCRW Eclectic 24");
    reveal_strlit("KCRW Live");
    reveal_strlit("KEXP");
    reveal_strlit("NTS 1");
    reveal_strlit("NTS 2");
    reveal_strlit("WFMU");
    let names = lowered_ascii(station_table());
    assert forall|i: int, j: int| 0 <= i < j < names.len() implies names[i] != names[j] by {
        let a = station_table()[i].name@;
        let b = station_table()[j].name@;
        assert(names[i] == lower_text(a) && names[j] == lower_text(b));
        if names[i] == names[j] {
            lemma_agree(a, b, 32);
            reveal_with_fuel(agree, 33);
            assert(false);
        }
    }
}

/// The first `n` characters of two texts agree in lowercase, as far as they go.
spec fn agree(a: Seq<char>, b: Seq<char>, n: int) -> bool
    decreases n,
{
    n <= 0 || (agree(a, b, n - 1) && (n <= a.len() ==> ascii_lower(a[n - 1]) == ascii_lower(
        b[n - 1],
    )))
}

proof fn lemma_agree(a: Seq<char>, b: Seq<char>, n: int)
    requires
        lower_text(a) == lower_text(b),
    ensures
        a.len() == b.len(),
        agree(a, b, n),
    decreases n,
{
    assert(lower_text(a).len() == a.len() && lower_text(b).len() == b.len());
    if n > 0 {
        lemma_agree(a, b, n - 1);
        if n <= a.len() {
            assert(lower_text(a)[n - 1] == ascii_lower(a[n - 1]));
            assert(lower_text(b)[n - 1] == ascii_lower(b[n - 1]));
        }
    }
}

/// A match holds the query, and there is one exactly where some name does; a
/// name that is the query goes before one that only holds it, and of several
/// the first is taken.
pub proof fn law_best_match(names: Seq<Seq<char>>, query: Seq<char>)
    ensures
        best_match(names, query) matches Some(i) ==> 0 <= i < names.len() && holds(
            names[i],
            query,
        ),
        best_match(names, query) is None ==> forall|i: int|
            0 <= i < names.len() ==> !holds(#[trigger] names[i], query),
        (best_match(names, query) matches Some(i) && names[i] == query) ==> forall|j: int|
            0 <= j < best_match(names, query).unwrap() ==> #[trigger] names[j] != query,
        (best_match(names, query) matches Some(i) && names[i] != query) ==> forall|j: int|
            0 <= j < names.len() ==> #[trigger] names[j] != query,
        (best_match(names, query) matches Some(i) && names[i] != query) ==> forall|j: int|
            0 <= j < best_match(names, query).unwrap() ==> !holds(#[trigger] names[j], query),
{
    lemma_first_equal(names, query, 0);
    lemma_first_holding(names, query, 0);
    if let Some(i) = first_equal(names, query, 0) {
        assert(names[i].subrange(0, names[i].len() as int) =~= names[i]);
        assert(occurs_at(names[i], query, 0));
    }
}

proof fn lemma_first_equal(names: Seq<Seq<char>>, query: Seq<char>, i: int)
    requires
        0 <= i,
    ensures
        first_equal(names, query, i) matches Some(r) ==> i <= r < names.len() && names[r] == query,
        first_equal(names, query, i) matches Some(r) ==> forall|j: int|
            i <= j < r ==> #[trigger] names[j] != query,
        first_equal(names, query, i) is None ==> forall|j: int|
            i <= j < names.len() ==> #[trigger] names[j] != query,
    decreases names.len() - i,
{
    if i < names.len() && names[i] != query {
        lemma_first_equal(names, query, i + 1);
    }
}

proof fn lemma_first_holding(names: Seq<Seq<char>>, query: Seq<char>, i: int)
    requires
        0 <= i,
    ensures
        first_holding(names, query, i) matches Some(r) ==> i <= r < names.len() && holds(
            names[r],
            query,
        ),
        first_holding(names, query, i) matches Some(r) ==> forall|j: int|
            i <= j < r ==> !holds(#[trigger] names[j], query),
        first_holding(names, query, i) is None ==> forall|j: int|
            i <= j < names.len() ==> !holds(#[trigger] names[j], query),
    decreases names.len() - i,
{
    if i < names.len() && !holds(names[i], query) {
        lemma_first_holding(names, query, i + 1);
    }
}

/// The ASCII case of a query does not matter: a query and its forms in ASCII
/// upper and lower case mean the same built-in station. The first two clauses
/// speak of any query, the last two of what a query of ASCII is compared with.
pub proof fn law_case_does_not_matter(query: Seq<char>)
    ensures
        best_match(lowered(station_table()), lowercase(lower_text(upper_text(query))))
            == best_match(lowered(station_table()), lowercase(lower_text(query))),
        best_match(lowered(station_table()), lowercase(lower_text(lower_text(query))))
            == best_match(lowered(station_table()), lowercase(lower_text(query))),
        best_match(lowered_ascii(station_table()), lower_text(upper_text(query))) == best_match(
            lowered_ascii(station_table()),
            lower_text(query),
        ),
        best_match(lowered_ascii(station_table()), lower_text(lower_text(query))) == best_match(
            lowered_ascii(station_table()),
            lower_text(query),
        ),
{
    assert(lower_text(upper_text(query)) =~= lower_text(query));
    assert(lower_text(lower_text(query)) =~= lower_text(query));
}

/// Where no two names are the same, each is found by itself.
pub proof fn law_own_name(names: Seq<Seq<char>>, i: int)
    requires
        names.no_duplicates(),
        0 <= i < names.len(),
    ensures
        best_match(names, names[i]) == Some(i),
{
    lemma_first_equal(names, names[i], 0);
}

/// Every built-in station is found by its own name: the name is a text of
/// ASCII, and in lowercase it means that station and no other.
pub proof fn law_every_station_by_name(i: int)
    requires
        0 <= i < station_table().len(),
    ensures
        is_ascii_chars(station_table()[i].name@),
        best_match(lowered_ascii(station_table()), lower_text(station_table()[i].name@)) == Some(
            i,
        ),
{
    lemma_built_in_names();
    law_own_name(lowered_ascii(station_table()), i);
}

} // verus!
