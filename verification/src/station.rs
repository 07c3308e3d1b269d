//! The stations and their categories.

use vstd::prelude::*;
use crate::text::same_text;

verus! {

/// One radio station.
#[derive(Clone, Copy, Debug)]
pub struct Station {
    pub name: &'static str,
    pub url: &'static str,
    pub category: &'static str,
    pub desc: &'static str,
    pub quality: &'static str,
}

/// How many stations are built in.
pub const STATION_COUNT: usize = 19;

/// The stations that are built in: name, address, category, description and
/// quality of each. Categories follow from the third column.
pub const STATIONS: [[&'static str; 5]; STATION_COUNT] = [
    [
        "BBC 6 Music",
        "https://as-hls-ww.live.cf.md.bbci.co.uk/pool_81827798/live/ww/bbc_6music/bbc_6music.isml/bbc_6music-audio=320000.norewind.m3u8",
        "BBC",
        "Alternative music station",
        "AAC 320k",
    ],
    [
        "FIP",
        "https://icecast.radiofrance.fr/fip-hifi.aac",
        "FIP",
        "Eclectic French public radio",
        "AAC Hi-Fi",
    ],
    [
        "FIP Rock",
        "https://icecast.radiofrance.fr/fiprock-hifi.aac",
        "FIP",
        "Rock from all eras",
        "AAC Hi-Fi",
    ],
    [
        "FIP Jazz",
        "https://icecast.radiofrance.fr/fipjazz-hifi.aac",
        "FIP",
        "Jazz standards and discoveries",
        "AAC Hi-Fi",
    ],
    [
        "FIP Groove",
        "https://icecast.radiofrance.fr/fipgroove-hifi.aac",
        "FIP",
        "Funk, soul, and groove",
        "AAC Hi-Fi",
    ],
    [
        "FIP Pop",
        "https://icecast.radiofrance.fr/fippop-hifi.aac",
        "FIP",
        "Pop music selections",
        "AAC Hi-Fi",
    ],
    [
        "FIP Electro",
        "https://icecast.radiofrance.fr/fipelectro-hifi.aac",
        "FIP",
        "Electronic music",
        "AAC Hi-Fi",
    ],
    [
        "FIP Monde",
        "https://icecast.radiofrance.fr/fipmonde-hifi.aac",
        "FIP",
        "World music",
        "AAC Hi-Fi",
    ],
    [
        "FIP Reggae",
        "https://icecast.radiofrance.fr/fipreggae-hifi.aac",
        "FIP",
        "Reggae and dub",
        "AAC Hi-Fi",
    ],
    [
        "FIP Nouveautes",
        "https://icecast.radiofrance.fr/fipnouveautes-hifi.aac",
        "FIP",
        "New releases",
        "AAC Hi-Fi",
    ],
    [
        "FIP Metal",
        "https://icecast.radiofrance.fr/fipmetal-hifi.aac",
        "FIP",
        "Metal and heavy music",
        "AAC Hi-Fi",
    ],
    [
        "France Musique",
        "https://icecast.radiofrance.fr/francemusique-hifi.aac",
        "France Musique",
        "Classical and jazz",
        "AAC Hi-Fi",
    ],
    [
        "KALX",
        "https://stream.kalx.berkeley.edu:8443/kalx-128.mp3",
        "KALX",
        "UC Berkeley college radio",
        "MP3 128k",
    ],
    [
        "KCRW Eclectic 24",
        "https://streams.kcrw.com/e24_aac",
        "KCRW",
        "24/7 hand-picked music",
        "AAC",
    ],
    [
        "KCRW Live",
        "https://streams.kcrw.com/kcrw_aac",
        "KCRW",
        "Live simulcast",
        "AAC",
    ],
    [
        "KEXP",
        "https://kexp.streamguys1.com/kexp160.aac",
        "KEXP",
        "Seattle's independent radio",
        "AAC 160k",
    ],
    [
        "NTS 1",
        "https://stream-relay-geo.ntslive.net/stream",
        "NTS",
        "London-based internet radio, channel 1",
        "MP3 192k",
    ],
    [
        "NTS 2",
        "https://stream-relay-geo.ntslive.net/stream2",
        "NTS",
        "London-based internet radio, channel 2",
        "MP3 192k",
    ],
    [
        "WFMU",
        "http://stream0.wfmu.org/freeform-128k",
        "WFMU",
        "Freeform radio from Jersey City",
        "MP3 128k",
    ],
];

/// The stations that are built in.
pub open spec fn station_table() -> Seq<Station> {
    Seq::new(
        STATION_COUNT as nat,
        |i: int|
            Station {
                name: STATIONS@[i]@[0],
                url: STATIONS@[i]@[1],
                category: STATIONS@[i]@[2],
                desc: STATIONS@[i]@[3],
                quality: STATIONS@[i]@[4],
            },
    )
}

/// The stations that are built in.
pub fn stations() -> (list: Vec<Station>)
    ensures
        list@ == station_table(),
{
    let mut list: Vec<Station> = Vec::new();
    let mut i: usize = 0;
    while i < STATION_COUNT
        invariant
            i <= STATION_COUNT,
            list@ == station_table().take(i as int),
        decreases STATION_COUNT - i,
    {
        let row: [&'static str; 5] = STATIONS[i];
        list.push(
            Station { name: row[0], url: row[1], category: row[2], desc: row[3], quality: row[4] },
        );
        i = i + 1;
        assert(list@ =~= station_table().take(i as int));
    }
    assert(station_table().take(STATION_COUNT as int) =~= station_table());
    list
}

/// The categories of some stations, in the order in which they first appear.
pub open spec fn categories(stations: Seq<Station>) -> Seq<Seq<char>>
    decreases stations.len(),
{
    if stations.len() == 0 {
        seq![]
    } else {
        let before = categories(stations.drop_last());
        if before.contains(stations.last().category@) {
            before
        } else {
            before.push(stations.last().category@)
        }
    }
}

/// The positions of the stations of a category, in order.
pub open spec fn members(stations: Seq<Station>, category: Seq<char>) -> Seq<usize>
    decreases stations.len(),
{
    if stations.len() == 0 {
        seq![]
    } else {
        let before = members(stations.drop_last(), category);
        if stations.last().category@ == category {
            before.push((stations.len() - 1) as usize)
        } else {
            before
        }
    }
}

/// The characters of each of some strings.
pub open spec fn texts(list: Seq<&'static str>) -> Seq<Seq<char>> {
    list.map_values(|s: &'static str| s@)
}

/// Whether a string is on a list.
fn listed(list: &Vec<&'static str>, s: &str) -> (found: bool)
    ensures
        found == texts(list@).contains(s@),
{
    let mut i: usize = 0;
    while i < list.len()
        invariant
            i <= list@.len(),
            forall|k: int| 0 <= k < i ==> (#[trigger] texts(list@)[k]) != s@,
        decreases list@.len() - i,
    {
        if same_text(list[i], s) {
            assert(texts(list@)[i as int] == s@);
            return true;
        }
        i = i + 1;
    }
    false
}

/// The categories of some stations, in the order in which they first appear.
pub fn list_categories(stations: &Vec<Station>) -> (list: Vec<&'static str>)
    ensures
        texts(list@) == categories(stations@),
{
    let mut list: Vec<&'static str> = Vec::new();
    let mut i: usize = 0;
    assert(texts(list@) =~= categories(stations@.take(0)));
    while i < stations.len()
        invariant
            i <= stations@.len(),
            texts(list@) == categories(stations@.take(i as int)),
        decreases stations@.len() - i,
    {
        let ghost before = list@;
        let ghost seen = stations@.take(i + 1);
        assert(seen.drop_last() =~= stations@.take(i as int));
        let category: &'static str = stations[i].category;
        if !listed(&list, category) {
            list.push(category);
            assert(texts(list@) =~= texts(before).push(category@));
        }
        i = i + 1;
    }
    assert(stations@.take(i as int) =~= stations@);
    list
}

/// The positions of the stations of a category, in order.
pub fn list_members(stations: &Vec<Station>, category: &str) -> (list: Vec<usize>)
    ensures
        list@ == members(stations@, category@),
{
    let mut list: Vec<usize> = Vec::new();
    let mut i: usize = 0;
    while i < stations.len()
        invariant
            i <= stations@.len(),
            list@ == members(stations@.take(i as int), category@),
        decreases stations@.len() - i,
    {
        assert(stations@.take(i + 1).drop_last() =~= stations@.take(i as int));
        if same_text(stations[i].category, category) {
            list.push(i);
        }
        i = i + 1;
    }
    assert(stations@.take(i as int) =~= stations@);
    list
}

/// How many stations each of some categories has.
pub fn count_members(stations: &Vec<Station>, categories: &Vec<&'static str>) -> (counts: Vec<
    usize,
>)
    ensures
        counts@.len() == categories@.len(),
        forall|k: int|
            0 <= k < categories@.len() ==> #[trigger] counts@[k] == members(
                stations@,
                categories@[k]@,
            ).len(),
{
    let mut counts: Vec<usize> = Vec::new();
    let mut k: usize = 0;
    while k < categories.len()
        invariant
            k <= categories@.len(),
            counts@.len() == k,
            forall|j: int|
                0 <= j < k ==> #[trigger] counts@[j] == members(
                    stations@,
                    categories@[j]@,
                ).len(),
        decreases categories@.len() - k,
    {
        let list: Vec<usize> = list_members(stations, categories[k]);
        counts.push(list.len());
        k = k + 1;
    }
    counts
}

/// The members of a category are the stations that name it, each once, in the
/// order of the list.
pub proof fn law_members(stations: Seq<Station>, category: Seq<char>)
    requires
        stations.len() <= usize::MAX,
    ensures
        forall|k: int|
            0 <= k < members(stations, category).len() ==> (#[trigger] members(
                stations,
                category,
            )[k]) < stations.len() && stations[members(stations, category)[k] as int].category@
                == category,
        forall|j: int, k: int|
            0 <= j < k < members(stations, category).len() ==> (#[trigger] members(
                stations,
                category,
            )[j]) < (#[trigger] members(stations, category)[k]),
        forall|i: int|
            0 <= i < stations.len() && (#[trigger] stations[i]).category@ == category ==> members(
                stations,
                category,
            ).contains(i as usize),
    decreases stations.len(),
{
    if stations.len() > 0 {
        let front = stations.drop_last();
        let before = members(front, category);
        let now = members(stations, category);
        law_members(front, category);
        assert forall|k: int| 0 <= k < now.len() implies (#[trigger] now[k]) < stations.len()
            && stations[now[k] as int].category@ == category by {
            if k < before.len() {
                assert(now[k] == before[k]);
                assert(front[before[k] as int] == stations[before[k] as int]);
            }
        }
        assert forall|j: int, k: int| 0 <= j < k < now.len() implies (#[trigger] now[j])
            < (#[trigger] now[k]) by {
            assert(now[j] == before[j]);
            if k < before.len() {
                assert(now[k] == before[k]);
            }
        }
        assert forall|i: int|
            0 <= i < stations.len() && (#[trigger] stations[i]).category@
                == category implies now.contains(i as usize) by {
            if i < front.len() {
                assert(front[i] == stations[i]);
                let k = choose|k: int| 0 <= k < before.len() && before[k] == i as usize;
                assert(now[k] == i as usize);
            } else {
                assert(now[now.len() - 1] == i as usize);
            }
        }
    }
}

/// Every category is named by some station, every station's category is on
/// the list, and no category is on it twice.
pub proof fn law_categories(stations: Seq<Station>)
    ensures
        categories(stations).no_duplicates(),
        forall|c: Seq<char>| #[trigger]
            categories(stations).contains(c) ==> exists|i: int|
                0 <= i < stations.len() && (#[trigger] stations[i]).category@ == c,
        forall|i: int|
            0 <= i < stations.len() ==> categories(stations).contains(
                (#[trigger] stations[i]).category@,
            ),
    decreases stations.len(),
{
    if stations.len() > 0 {
        let front = stations.drop_last();
        let before = categories(front);
        let now = categories(stations);
        law_categories(front);
        assert forall|c: Seq<char>| #[trigger] now.contains(c) implies exists|i: int|
            0 <= i < stations.len() && (#[trigger] stations[i]).category@ == c by {
            if before.contains(c) {
                let i = choose|i: int|
                    0 <= i < front.len() && (#[trigger] front[i]).category@ == c;
                assert(stations[i] == front[i]);
            } else {
                let k = choose|k: int| 0 <= k < now.len() && now[k] == c;
                if k < before.len() {
                    assert(before[k] == c);
                }
                assert(stations[stations.len() - 1].category@ == c);
            }
        }
        assert forall|i: int| 0 <= i < stations.len() implies now.contains(
            (#[trigger] stations[i]).category@,
        ) by {
            if i < front.len() {
                assert(front[i] == stations[i]);
                let c = stations[i].category@;
                let k = choose|k: int| 0 <= k < before.len() && before[k] == c;
                assert(now[k] == c);
            } else if !before.contains(stations[i].category@) {
                assert(now[now.len() - 1] == stations[i].category@);
            }
        }
    }
}

/// A category on the list has a first member, and an earlier category has an
/// earlier one: the list keeps the order of insertion.
pub proof fn law_categories_in_order(stations: Seq<Station>)
    requires
        stations.len() <= usize::MAX,
    ensures
        forall|j: int|
            0 <= j < categories(stations).len() ==> members(
                stations,
                #[trigger] categories(stations)[j],
            ).len() > 0,
        forall|j: int, k: int|
            0 <= j < k < categories(stations).len() ==> members(
                stations,
                #[trigger] categories(stations)[j],
            )[0] < members(stations, #[trigger] categories(stations)[k])[0],
    decreases stations.len(),
{
    if stations.len() > 0 {
        let front = stations.drop_last();
        let before = categories(front);
        let now = categories(stations);
        law_categories_in_order(front);
        assert forall|j: int| 0 <= j < now.len() implies members(
            stations,
            #[trigger] now[j],
        ).len() > 0 && (j < before.len() ==> members(stations, now[j])[0] == members(
            front,
            before[j],
        )[0] && members(stations, now[j])[0] < front.len()) && (j >= before.len() ==> members(
            stations,
            now[j],
        )[0] == front.len()) by {
            if j < before.len() {
                assert(now[j] == before[j]);
                law_members(front, before[j]);
            } else {
                let c = now[j];
                law_members(front, c);
                if members(front, c).len() > 0 {
                    let i = members(front, c)[0] as int;
                    law_categories(front);
                    assert(front[i].category@ == c);
                    assert(before.contains(c));
                }
            }
        }
        assert forall|j: int, k: int| 0 <= j < k < now.len() implies members(
            stations,
            #[trigger] now[j],
        )[0] < members(stations, #[trigger] now[k])[0] by {
            if k < before.len() {
                assert(now[j] == before[j] && now[k] == before[k]);
            }
        }
    }
}

/// Adding a station at the end leaves the categories and their members as
/// they are, but for the one that it names.
pub proof fn law_append_station(stations: Seq<Station>, station: Station)
    requires
        stations.len() < usize::MAX,
    ensures
        categories(stations.push(station)) == (if categories(stations).contains(
            station.category@,
        ) {
            categories(stations)
        } else {
            categories(stations).push(station.category@)
        }),
        members(stations.push(station), station.category@) == members(
            stations,
            station.category@,
        ).push(stations.len() as usize),
        forall|c: Seq<char>|
            c != station.category@ ==> #[trigger] members(stations.push(station), c) == members(
                stations,
                c,
            ),
{
    assert(stations.push(station).drop_last() =~= stations);
}

} // verus!
