use radio::search::{fuzzy_match, match_name, match_station};
use radio::station::{count_members, list_categories, list_members, stations, Station};

fn station(name: &'static str, category: &'static str) -> Station {
    Station { name, url: "u", category, desc: "d", quality: "q" }
}

#[test]
fn built_in_stations_are_complete() {
    let list = stations();
    assert_eq!(list.len(), 19);
    assert_eq!(list[0].name, "BBC 6 Music");
    assert_eq!(list[0].quality, "AAC 320k");
    assert_eq!(list[15].name, "KEXP");
    assert_eq!(list[15].url, "https://kexp.streamguys1.com/kexp160.aac");
    assert_eq!(list[15].category, "KEXP");
    assert_eq!(list[15].desc, "Seattle's independent radio");
    assert_eq!(list[18].url, "http://stream0.wfmu.org/freeform-128k");
    assert!(list.iter().all(|s| s.url.starts_with("http")));
}

#[test]
fn categories_keep_the_order_of_insertion() {
    let list = stations();
    let categories = list_categories(&list);
    assert_eq!(
        categories,
        vec!["BBC", "FIP", "France Musique", "KALX", "KCRW", "KEXP", "NTS", "WFMU"]
    );
    assert_eq!(count_members(&list, &categories), vec![1, 10, 1, 1, 2, 1, 2, 1]);
}

#[test]
fn members_are_the_stations_of_a_category() {
    let list = stations();
    assert_eq!(list_members(&list, "FIP"), (1..=10).collect::<Vec<usize>>());
    assert_eq!(list_members(&list, "NTS"), vec![16, 17]);
    assert_eq!(list_members(&list, "fip"), Vec::<usize>::new());
}

#[test]
fn an_appended_station_joins_or_opens_a_category() {
    let mut list = vec![station("a", "X"), station("b", "Y")];
    list.push(station("c", "X"));
    assert_eq!(list_categories(&list), vec!["X", "Y"]);
    assert_eq!(list_members(&list, "X"), vec![0, 2]);
    list.push(station("d", "Z"));
    assert_eq!(list_categories(&list), vec!["X", "Y", "Z"]);
    assert_eq!(list_members(&list, "Y"), vec![1]);
}

#[test]
fn no_stations_have_no_categories() {
    assert!(list_categories(&Vec::new()).is_empty());
}

#[test]
fn stations_are_found_whatever_the_case() {
    assert_eq!(fuzzy_match("kexp"), Some(15));
    assert_eq!(fuzzy_match("KEXP"), Some(15));
    assert_eq!(fuzzy_match("fIp JaZz"), Some(3));
    for (i, s) in stations().iter().enumerate() {
        assert_eq!(fuzzy_match(s.name), Some(i));
        assert_eq!(fuzzy_match(&s.name.to_uppercase()), Some(i));
        assert_eq!(fuzzy_match(&s.name.to_lowercase()), Some(i));
    }
}

#[test]
fn parts_of_names_find_the_first() {
    assert_eq!(fuzzy_match("eclectic"), Some(13));
    assert_eq!(fuzzy_match("kcrw"), Some(13));
    assert_eq!(fuzzy_match("nts"), Some(16));
    assert_eq!(fuzzy_match("music"), Some(0));
    assert_eq!(fuzzy_match(""), Some(0));
}

#[test]
fn unknown_names_find_nothing() {
    assert_eq!(fuzzy_match("no such station"), None);
    assert_eq!(fuzzy_match("kexp "), None);
    assert_eq!(fuzzy_match("ＫＥＸＰ"), None);
}

#[test]
fn a_whole_name_goes_before_a_part() {
    let names: Vec<String> = ["fip rock", "fip", "fip"].iter().map(|s| s.to_string()).collect();
    assert_eq!(match_name(&names, "fip"), Some(1));
    assert_eq!(match_name(&names, "rock"), Some(0));
    assert_eq!(match_name(&names, "jazz"), None);
}

#[test]
fn the_ascii_case_of_a_query_does_not_matter() {
    for q in ["kExP", "Fip jAZZ", "Nts", "", "zZz", "éCLAIR", "ÉcLaIr", "İx", "AΣ", "aΣb", "Ｋexp"] {
        let found = fuzzy_match(q);
        assert_eq!(fuzzy_match(&q.to_ascii_uppercase()), found, "{:?}", q);
        assert_eq!(fuzzy_match(&q.to_ascii_lowercase()), found, "{:?}", q);
    }
    let list = vec![station("ÉCLAIR", "B"), station("XΣ", "C"), station("xΣy", "D")];
    for (q, at) in [("Éclair", 0), ("ÉCLAIR", 0), ("xΣ", 1), ("XΣ", 1), ("XΣY", 2), ("xΣY", 2)] {
        assert_eq!(match_station(&list, q), Some(at), "{:?}", q);
    }
}

#[test]
fn letters_beyond_ascii_are_lowered_too() {
    let list = vec![station("Radio Ö1", "A"), station("ÉCLAIR", "B"), station("İ", "C")];
    assert_eq!(match_station(&list, "éclair"), Some(1));
    assert_eq!(match_station(&list, "ö1"), Some(0));
    assert_eq!(match_station(&list, "i\u{307}"), Some(2));
}
